//! The music library: songs, playlists, and the library aggregate with
//! its three operations — create a playlist, append a song to the first
//! playlist bearing a requested name, and search songs by a fragment of
//! their title.

use vstd::prelude::*;
use vstd::string::StringExecFns;
use crate::text::{contains_fragment, lemma_empty_fragment, str_contains, str_eq};

verus! {

/// An immutable record of a song: title, artist, and length in seconds.
#[derive(Debug, Clone, PartialEq)]
pub struct Song {
    pub title: String,
    pub artist: String,
    pub length: i32,
}

/// A named, ordered list of songs. The name acts as a lookup key but is
/// not required to be unique across the library.
#[derive(Debug, Clone, PartialEq)]
pub struct Playlist {
    pub name: String,
    pub songs: Vec<Song>,
}

/// The root aggregate: an ordered collection of playlists, owning all
/// songs for the lifetime of one session.
#[derive(Debug)]
pub struct MusicLibrary {
    pub playlists: Vec<Playlist>,
}

/// The mathematical value of a `Song`.
#[verifier::ext_equal]
pub struct SongView {
    pub title: Seq<char>,
    pub artist: Seq<char>,
    pub length: int,
}

/// The mathematical value of a `Playlist`.
#[verifier::ext_equal]
pub struct PlaylistView {
    pub name: Seq<char>,
    pub songs: Seq<SongView>,
}

impl View for Song {
    type V = SongView;

    open spec fn view(&self) -> SongView {
        SongView { title: self.title@, artist: self.artist@, length: self.length as int }
    }
}

impl DeepView for Song {
    type V = SongView;

    open spec fn deep_view(&self) -> SongView {
        self.view()
    }
}

impl View for Playlist {
    type V = PlaylistView;

    open spec fn view(&self) -> PlaylistView {
        PlaylistView { name: self.name@, songs: self.songs.deep_view() }
    }
}

impl DeepView for Playlist {
    type V = PlaylistView;

    open spec fn deep_view(&self) -> PlaylistView {
        self.view()
    }
}

impl View for MusicLibrary {
    type V = Seq<PlaylistView>;

    open spec fn view(&self) -> Seq<PlaylistView> {
        self.playlists.deep_view()
    }
}

/// A freshly created playlist: the given name and no songs yet.
pub open spec fn new_playlist(name: Seq<char>) -> PlaylistView {
    PlaylistView { name, songs: Seq::empty() }
}

/// The library after one add-playlist call per name of `names`, made in
/// order: each call pushes a fresh, empty playlist, as `add_playlist`
/// ensures.
pub open spec fn after_adding_playlists(
    lib: Seq<PlaylistView>,
    names: Seq<Seq<char>>,
) -> Seq<PlaylistView>
    decreases names.len(),
{
    if names.len() == 0 {
        lib
    } else {
        after_adding_playlists(lib.push(new_playlist(names[0])), names.drop_first())
    }
}

/// Law: a run of add-playlist calls grows the library by exactly the
/// number of calls, leaves the playlists already present as they were,
/// and appends one empty playlist per requested name, in call order.
pub proof fn lemma_add_playlists_in_order(lib: Seq<PlaylistView>, names: Seq<Seq<char>>)
    ensures
        after_adding_playlists(lib, names).len() == lib.len() + names.len(),
        forall|k: int|
            0 <= k < lib.len() ==> #[trigger] after_adding_playlists(lib, names)[k] == lib[k],
        forall|k: int|
            0 <= k < names.len() ==> #[trigger] after_adding_playlists(lib, names)[lib.len() + k]
                == new_playlist(names[k]),
    decreases names.len(),
{
    if names.len() > 0 {
        let lib2 = lib.push(new_playlist(names[0]));
        lemma_add_playlists_in_order(lib2, names.drop_first());
        assert forall|k: int| 0 <= k < names.len() implies #[trigger] after_adding_playlists(
            lib,
            names,
        )[lib.len() + k] == new_playlist(names[k]) by {
            if k == 0 {
                assert(after_adding_playlists(lib2, names.drop_first())[lib.len() as int] == lib2[lib.len() as int]);
            } else {
                assert(after_adding_playlists(lib2, names.drop_first())[lib2.len() + (k - 1)]
                    == new_playlist(names.drop_first()[k - 1]));
                assert(names.drop_first()[k - 1] == names[k]);
            }
        }
    }
}

/// Some playlist in `lib` bears exactly the name `name`.
pub open spec fn has_playlist(lib: Seq<PlaylistView>, name: Seq<char>) -> bool {
    exists|i: int| 0 <= i < lib.len() && lib[i].name == name
}

/// `i` is the position of the earliest playlist in `lib` named `name`.
pub open spec fn is_first_match(lib: Seq<PlaylistView>, name: Seq<char>, i: int) -> bool {
    &&& 0 <= i < lib.len()
    &&& lib[i].name == name
    &&& forall|j: int| 0 <= j < i ==> lib[j].name != name
}

/// The position of the earliest playlist in `lib` named `name`;
/// meaningful only when `has_playlist(lib, name)` holds.
pub open spec fn first_match_index(lib: Seq<PlaylistView>, name: Seq<char>) -> int
    decreases lib.len(),
{
    if lib.len() == 0 {
        0
    } else if lib[0].name == name {
        0
    } else {
        1 + first_match_index(lib.drop_first(), name)
    }
}

/// `lib` with `song` appended to the playlist at position `i`.
pub open spec fn with_song_added(lib: Seq<PlaylistView>, i: int, song: SongView) -> Seq<
    PlaylistView,
>
    recommends
        0 <= i < lib.len(),
{
    lib.update(i, PlaylistView { name: lib[i].name, songs: lib[i].songs.push(song) })
}

/// `song` has `frag` as a contiguous, case-sensitive substring of its
/// title.
pub open spec fn song_matches(song: SongView, frag: Seq<char>) -> bool {
    contains_fragment(song.title, frag)
}

/// The title-matching predicate for a given fragment, as a value.
pub open spec fn title_pred(frag: Seq<char>) -> spec_fn(SongView) -> bool {
    |song: SongView| song_matches(song, frag)
}

/// Every song of `lib` whose title contains `frag`, in playlist order
/// and, within a playlist, in insertion order.
pub open spec fn matching_songs(lib: Seq<PlaylistView>, frag: Seq<char>) -> Seq<SongView>
    decreases lib.len(),
{
    if lib.len() == 0 {
        Seq::empty()
    } else {
        matching_songs(lib.drop_last(), frag) + lib.last().songs.filter(title_pred(frag))
    }
}

/// Every song of `lib`, in playlist order and, within a playlist, in
/// insertion order.
pub open spec fn all_songs(lib: Seq<PlaylistView>) -> Seq<SongView>
    decreases lib.len(),
{
    if lib.len() == 0 {
        Seq::empty()
    } else {
        all_songs(lib.drop_last()) + lib.last().songs
    }
}

/// Whenever some playlist bears the requested name, `first_match_index`
/// points at a playlist with that name, and no earlier playlist has it.
pub proof fn lemma_first_match_exists(lib: Seq<PlaylistView>, name: Seq<char>)
    requires
        has_playlist(lib, name),
    ensures
        is_first_match(lib, name, first_match_index(lib, name)),
    decreases lib.len(),
{
    if lib.len() > 0 && lib[0].name != name {
        let w = choose|i: int| 0 <= i < lib.len() && lib[i].name == name;
        assert(lib.drop_first()[w - 1] == lib[w]);
        lemma_first_match_exists(lib.drop_first(), name);
        let r = first_match_index(lib.drop_first(), name);
        assert forall|j: int| 0 <= j < 1 + r implies lib[j].name != name by {
            if j > 0 {
                assert(lib.drop_first()[j - 1] == lib[j]);
            }
        }
    }
}

/// Law: adding a song to a name that is present appends exactly one
/// song to the earliest playlist bearing that name and leaves every
/// other playlist — in particular every later playlist with the same
/// name — unchanged; the count of playlists stays the same.
pub proof fn lemma_add_song_first_match(lib: Seq<PlaylistView>, name: Seq<char>, song: SongView)
    requires
        has_playlist(lib, name),
    ensures
        ({
            let i = first_match_index(lib, name);
            let out = with_song_added(lib, i, song);
            &&& is_first_match(lib, name, i)
            &&& out.len() == lib.len()
            &&& out[i].name == lib[i].name
            &&& out[i].songs == lib[i].songs.push(song)
            &&& out[i].songs.len() == lib[i].songs.len() + 1
            &&& forall|j: int| 0 <= j < lib.len() && j != i ==> out[j] == lib[j]
        }),
{
    lemma_first_match_exists(lib, name);
}

/// Every element of `songs` satisfies `pred`, so filtering by `pred`
/// gives `songs` back.
proof fn lemma_filter_all(songs: Seq<SongView>, pred: spec_fn(SongView) -> bool)
    requires
        forall|k: int| 0 <= k < songs.len() ==> pred(#[trigger] songs[k]),
    ensures
        songs.filter(pred) == songs,
    decreases songs.len(),
{
    reveal(Seq::filter);
    if songs.len() > 0 {
        assert(forall|k: int| 0 <= k < songs.drop_last().len() ==> pred(
            #[trigger] songs.drop_last()[k],
        ));
        lemma_filter_all(songs.drop_last(), pred);
        assert(songs.drop_last().push(songs.last()) =~= songs);
    }
}

/// Law: the empty fragment is contained in every title, so a search for
/// it returns every song of the library, in playlist-then-insertion
/// order.
pub proof fn lemma_search_empty_fragment(lib: Seq<PlaylistView>)
    ensures
        matching_songs(lib, Seq::<char>::empty()) == all_songs(lib),
    decreases lib.len(),
{
    if lib.len() > 0 {
        lemma_search_empty_fragment(lib.drop_last());
        let songs = lib.last().songs;
        assert forall|k: int| 0 <= k < songs.len() implies title_pred(Seq::<char>::empty())(
            #[trigger] songs[k],
        ) by {
            lemma_empty_fragment(songs[k].title);
        }
        lemma_filter_all(songs, title_pred(Seq::<char>::empty()));
    }
}

/// Law: the songs matching a fragment are exactly the full traversal of
/// the library filtered by title containment — so a search never
/// returns a song whose title lacks the fragment, returns every song
/// whose title holds it, and keeps the traversal order.
pub proof fn lemma_matching_is_filtered_traversal(lib: Seq<PlaylistView>, frag: Seq<char>)
    ensures
        matching_songs(lib, frag) == all_songs(lib).filter(title_pred(frag)),
    decreases lib.len(),
{
    reveal(Seq::filter);
    if lib.len() > 0 {
        lemma_matching_is_filtered_traversal(lib.drop_last(), frag);
        Seq::filter_distributes_over_add(all_songs(lib.drop_last()), lib.last().songs, title_pred(frag));
    }
}

/// Law: a search is sound and complete for its fragment — no returned
/// song lacks the fragment in its title, and every song of the library
/// whose title holds the fragment is returned.
pub proof fn lemma_matching_songs_exact(lib: Seq<PlaylistView>, frag: Seq<char>)
    ensures
        forall|k: int| 0 <= k < matching_songs(lib, frag).len() ==> song_matches(
            #[trigger] matching_songs(lib, frag)[k],
            frag,
        ),
        forall|i: int, j: int|
            0 <= i < lib.len() && 0 <= j < lib[i].songs.len() && song_matches(
                #[trigger] lib[i].songs[j],
                frag,
            ) ==> matching_songs(lib, frag).contains(lib[i].songs[j]),
    decreases lib.len(),
{
    broadcast use vstd::seq_lib::group_filter_ensures;

    if lib.len() > 0 {
        lemma_matching_songs_exact(lib.drop_last(), frag);
        let front = matching_songs(lib.drop_last(), frag);
        let tail = lib.last().songs.filter(title_pred(frag));
        assert forall|k: int| 0 <= k < matching_songs(lib, frag).len() implies song_matches(
            #[trigger] matching_songs(lib, frag)[k],
            frag,
        ) by {
            if k >= front.len() {
                assert(matching_songs(lib, frag)[k] == tail[k - front.len()]);
            }
        }
        assert forall|i: int, j: int|
            0 <= i < lib.len() && 0 <= j < lib[i].songs.len() && song_matches(
                #[trigger] lib[i].songs[j],
                frag,
            ) implies matching_songs(lib, frag).contains(lib[i].songs[j]) by {
            if i < lib.len() - 1 {
                assert(lib.drop_last()[i] == lib[i]);
                assert(front.contains(lib[i].songs[j]));
                let w = choose|w: int| 0 <= w < front.len() && front[w] == lib[i].songs[j];
                assert(matching_songs(lib, frag)[w] == lib[i].songs[j]);
            } else {
                assert(lib.last() == lib[i]);
                assert(tail.contains(lib[i].songs[j]));
                let w = choose|w: int| 0 <= w < tail.len() && tail[w] == lib[i].songs[j];
                assert(matching_songs(lib, frag)[front.len() + w] == lib[i].songs[j]);
            }
        }
    }
}

/// The earliest position whose playlist bears `name` is exactly
/// `first_match_index`.
pub proof fn lemma_first_match_is_first(lib: Seq<PlaylistView>, name: Seq<char>, i: int)
    requires
        is_first_match(lib, name, i),
    ensures
        first_match_index(lib, name) == i,
    decreases i,
{
    if i > 0 {
        assert(lib[0].name != name);
        assert(lib.drop_first()[i - 1] == lib[i]);
        assert forall|j: int| 0 <= j < i - 1 implies lib.drop_first()[j].name != name by {
            assert(lib.drop_first()[j] == lib[j + 1]);
        }
        lemma_first_match_is_first(lib.drop_first(), name, i - 1);
    }
}

impl MusicLibrary {
    /// Appends a new, empty playlist with the given name to the end of
    /// the library. Always succeeds; the name is taken as given, with no
    /// validation and no uniqueness requirement.
    pub fn add_playlist(&mut self, name: String)
        ensures
            final(self)@ == old(self)@.push(new_playlist(name@)),
            final(self)@.len() == old(self)@.len() + 1,
    {
        let ghost name_view = name@;
        self.playlists.push(Playlist { name, songs: Vec::new() });
        proof {
            assert(self@ =~~= old(self)@.push(new_playlist(name_view)));
        }
    }

    /// Scans the playlists in order and appends `song` to the first one
    /// whose name equals `playlist_name` exactly (case-sensitive, full
    /// string). Later playlists with the same name are never touched.
    /// When no playlist bears the name, the library is left unchanged
    /// and the failure names the missing playlist.
    pub fn add_song_to_playlist(&mut self, playlist_name: &str, song: Song) -> (r: Result<
        (),
        String,
    >)
        ensures
            r is Ok <==> has_playlist(old(self)@, playlist_name@),
            has_playlist(old(self)@, playlist_name@) ==> final(self)@ == with_song_added(
                old(self)@,
                first_match_index(old(self)@, playlist_name@),
                song@,
            ),
            !has_playlist(old(self)@, playlist_name@) ==> final(self)@ == old(self)@,
            r is Err ==> r->Err_0@ == "Playlist "@ + playlist_name@ + " not found"@,
    {
        let mut i: usize = 0;
        while i < self.playlists.len()
            invariant
                i <= self.playlists.len(),
                *self == *old(self),
                forall|j: int| 0 <= j < i ==> self@[j].name != playlist_name@,
            decreases self.playlists.len() - i,
        {
            if str_eq(self.playlists[i].name.as_str(), playlist_name) {
                proof {
                    assert(self@[i as int] == self.playlists[i as int].deep_view());
                    lemma_first_match_is_first(self@, playlist_name@, i as int);
                }
                self.playlists[i].songs.push(song);
                proof {
                    assert(self@ =~~= with_song_added(
                        old(self)@,
                        first_match_index(old(self)@, playlist_name@),
                        song@,
                    ));
                }
                return Ok(());
            }
            i += 1;
        }
        let mut message = String::from_str("Playlist ");
        message.append(playlist_name);
        message.append(" not found");
        Err(message)
    }

    /// Collects, in playlist-then-insertion order, a handle to every
    /// song whose title contains `title` as a contiguous, case-sensitive
    /// substring. An empty result is the ordinary "no matches" outcome,
    /// not an error. The library is not changed.
    pub fn search_song_by_title(&self, title: &str) -> (r: Vec<&Song>)
        ensures
            r.deep_view() == matching_songs(self@, title@),
    {
        let mut result: Vec<&Song> = Vec::new();
        let mut i: usize = 0;
        while i < self.playlists.len()
            invariant
                i <= self.playlists.len(),
                result.deep_view() == matching_songs(self@.subrange(0, i as int), title@),
            decreases self.playlists.len() - i,
        {
            let mut j: usize = 0;
            while j < self.playlists[i].songs.len()
                invariant
                    i < self.playlists.len(),
                    j <= self@[i as int].songs.len(),
                    result.deep_view() == matching_songs(self@.subrange(0, i as int), title@)
                        + self@[i as int].songs.subrange(0, j as int).filter(title_pred(title@)),
                decreases self@[i as int].songs.len() - j,
            {
                let ghost result_before = result.deep_view();
                let ghost songs = self@[i as int].songs;
                let song = &self.playlists[i].songs[j];
                proof {
                    assert(song.deep_view() == songs[j as int]);
                }
                if str_contains(song.title.as_str(), title) {
                    result.push(song);
                    proof {
                        assert(result.deep_view() =~~= result_before.push(songs[j as int]));
                    }
                }
                proof {
                    let pred = title_pred(title@);
                    let s1 = songs.subrange(0, j as int);
                    let s2 = songs.subrange(0, j + 1);
                    assert(s2 =~= s1.push(songs[j as int]));
                    s1.lemma_filter_push(songs[j as int], pred);
                    assert(result.deep_view() =~~= matching_songs(
                        self@.subrange(0, i as int),
                        title@,
                    ) + s2.filter(pred));
                }
                j += 1;
            }
            proof {
                let prefix = self@.subrange(0, i as int);
                let extended = self@.subrange(0, i + 1);
                assert(extended.drop_last() =~= prefix);
                assert(extended.last() == self@[i as int]);
                assert(self@[i as int].songs.subrange(0, self@[i as int].songs.len() as int)
                    =~= self@[i as int].songs);
            }
            i += 1;
        }
        proof {
            assert(self@.subrange(0, self@.len() as int) =~= self@);
        }
        result
    }
}

} // verus!
