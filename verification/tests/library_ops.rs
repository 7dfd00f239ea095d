use music_library::library::{MusicLibrary, Playlist, Song};

fn song(title: &str, artist: &str, length: i32) -> Song {
    Song { title: title.to_string(), artist: artist.to_string(), length }
}

fn empty_library() -> MusicLibrary {
    MusicLibrary { playlists: Vec::new() }
}

#[test]
fn playlist_count_follows_calls() {
    let mut library = empty_library();
    assert_eq!(library.playlists.len(), 0);
    library.add_playlist("Rock".to_string());
    assert_eq!(library.playlists.len(), 1);
    library.add_playlist("Jazz".to_string());
    assert_eq!(library.playlists.len(), 2);
    library.add_playlist(String::new());
    assert_eq!(library.playlists.len(), 3);
    assert_eq!(library.playlists[0].name, "Rock");
    assert_eq!(library.playlists[1].name, "Jazz");
    assert_eq!(library.playlists[2].name, "");
    for playlist in &library.playlists {
        assert!(playlist.songs.is_empty());
    }
}

#[test]
fn add_song_appends_to_named_playlist_only() {
    let mut library = empty_library();
    library.add_playlist("Rock".to_string());
    library.add_playlist("Jazz".to_string());
    let r = library.add_song_to_playlist("Jazz", song("Take Five", "Brubeck", 324));
    assert!(r.is_ok());
    assert_eq!(library.playlists[0].songs.len(), 0);
    assert_eq!(library.playlists[1].songs.len(), 1);
    assert_eq!(library.playlists[1].songs[0], song("Take Five", "Brubeck", 324));
    let r2 = library.add_song_to_playlist("Jazz", song("So What", "Davis", 545));
    assert!(r2.is_ok());
    assert_eq!(library.playlists[1].songs.len(), 2);
    assert_eq!(library.playlists[1].songs[1].title, "So What");
}

#[test]
fn add_song_to_absent_name_reports_not_found() {
    let mut library = empty_library();
    library.add_playlist("Road Trip".to_string());
    let r = library.add_song_to_playlist("Workout", song("Highway", "X", 200));
    assert_eq!(r.unwrap_err(), "Playlist Workout not found");
    assert_eq!(library.playlists.len(), 1);
    assert!(library.playlists[0].songs.is_empty());
}

#[test]
fn add_song_to_empty_library_reports_not_found() {
    let mut library = empty_library();
    let r = library.add_song_to_playlist("Anything", song("A", "B", 1));
    assert_eq!(r.unwrap_err(), "Playlist Anything not found");
    assert!(library.playlists.is_empty());
}

#[test]
fn playlist_name_matching_is_exact_and_case_sensitive() {
    let mut library = empty_library();
    library.add_playlist("Rock".to_string());
    let r = library.add_song_to_playlist("rock", song("A", "B", 1));
    assert_eq!(r.unwrap_err(), "Playlist rock not found");
    let r2 = library.add_song_to_playlist("Roc", song("A", "B", 1));
    assert_eq!(r2.unwrap_err(), "Playlist Roc not found");
    assert!(library.playlists[0].songs.is_empty());
}

#[test]
fn duplicate_names_first_playlist_wins() {
    let mut library = empty_library();
    library.add_playlist("Mix".to_string());
    library.add_playlist("Mix".to_string());
    let r = library.add_song_to_playlist("Mix", song("Only One", "Y", 180));
    assert!(r.is_ok());
    assert_eq!(library.playlists[0].songs.len(), 1);
    assert_eq!(library.playlists[0].songs[0].title, "Only One");
    assert_eq!(library.playlists[1].songs.len(), 0);
}

#[test]
fn road_trip_scenario() {
    let mut library = empty_library();
    library.add_playlist("Road Trip".to_string());
    let ok = library.add_song_to_playlist("Road Trip", song("Highway", "X", 200));
    assert!(ok.is_ok());
    assert_eq!(library.playlists[0].songs.len(), 1);
    let err = library.add_song_to_playlist("Workout", song("Highway", "X", 200));
    let message = err.unwrap_err();
    assert!(message.contains("Workout"));
    let found = library.search_song_by_title("igh");
    assert_eq!(found.len(), 1);
    assert_eq!(found[0].title, "Highway");
}

#[test]
fn playlists_can_be_built_directly() {
    let playlist = Playlist { name: "Solo".to_string(), songs: vec![song("One", "A", 60)] };
    let mut library = MusicLibrary { playlists: vec![playlist] };
    let r = library.add_song_to_playlist("Solo", song("Two", "B", 61));
    assert!(r.is_ok());
    assert_eq!(library.playlists[0].songs.len(), 2);
    assert_eq!(library.playlists[0].songs[0].title, "One");
    assert_eq!(library.playlists[0].songs[1].title, "Two");
}
