use music_app::playlist::Playlist;
use music_app::song::Song;

#[test]
fn generate_uid_is_deterministic() {
    let a = Song::generate_uid("Test", "Someone");
    let b = Song::generate_uid("Test", "Someone");
    assert_eq!(a, b);
    let s = Song::new("Test", "Someone", "./test.mp3");
    assert_eq!(s.id, a);
    assert_eq!(s.title, "Test");
    assert_eq!(s.artist, "Someone");
    assert_eq!(s.file_path, "./test.mp3");
}

#[test]
fn different_pairs_usually_differ() {
    let a = Song::generate_uid("Test", "Someone");
    let b = Song::generate_uid("Other", "Someone");
    assert_ne!(a, b);
}

#[test]
fn add_search_remove_scenario() {
    let mut pl = Playlist::new();
    assert_eq!(pl.len(), 0);
    let id = pl.add_song("Test", "Someone", "./test.mp3");
    assert_eq!(id, Song::generate_uid("Test", "Someone"));
    assert_eq!(pl.len(), 1);

    let found = pl.search_song(Some(String::from("Test")));
    assert_eq!(found.len(), 1);
    assert_eq!(found[0].id, id);
    assert_eq!(found[0].title, "Test");
    assert_eq!(found[0].artist, "Someone");
    assert_eq!(found[0].file_path, "./test.mp3");

    assert!(pl.remove_song(id));
    assert_eq!(pl.len(), 0);
    assert!(pl.search_song(None).is_empty());
}

#[test]
fn collision_replaces_entry() {
    let mut pl = Playlist::new();
    let id1 = pl.add_song("Test", "Someone", "./old.mp3");
    let id2 = pl.add_song("Test", "Someone", "./new.mp3");
    assert_eq!(id1, id2);
    assert_eq!(pl.len(), 1);
    let song = pl.lookup(id1).expect("entry should be present");
    assert_eq!(song.file_path, "./new.mp3");
}

#[test]
fn add_remove_round_trip_restores_state() {
    let mut pl = Playlist::new();
    let keep = pl.add_song("Keep", "Artist", "./keep.mp3");
    let id = pl.add_song("Gone", "Artist", "./gone.mp3");
    assert_eq!(pl.len(), 2);
    assert!(pl.remove_song(id));
    assert_eq!(pl.len(), 1);
    assert!(pl.lookup(keep).is_some());
    assert!(pl.lookup(id).is_none());
}

#[test]
fn remove_of_absent_id_reports_not_found() {
    let mut pl = Playlist::new();
    assert!(!pl.remove_song(42));
    assert_eq!(pl.len(), 0);
    let id = pl.add_song("Test", "Someone", "./test.mp3");
    assert!(!pl.remove_song(id.wrapping_add(1)));
    assert_eq!(pl.len(), 1);
}

#[test]
fn play_of_absent_id_yields_nothing() {
    let pl = Playlist::new();
    assert!(pl.play_song(12345).is_none());
}

#[test]
fn play_of_present_id_yields_the_entry() {
    let mut pl = Playlist::new();
    let id = pl.add_song("Test", "Someone", "./test.mp3");
    let song = pl.play_song(id).expect("entry should be present");
    assert_eq!(song.file_path, "./test.mp3");
    assert_eq!(song.title, "Test");
    assert_eq!(song.artist, "Someone");
}

#[test]
fn search_matches_title_or_artist_substring() {
    let mut pl = Playlist::new();
    pl.add_song("Hello World", "Alice", "./a.mp3");
    pl.add_song("Quiet", "Worldly Bob", "./b.mp3");
    pl.add_song("Nothing", "Carol", "./c.mp3");

    let hits = pl.search_song(Some(String::from("World")));
    assert_eq!(hits.len(), 2);
    assert!(hits.iter().all(|s| s.title.contains("World") || s.artist.contains("World")));

    let none = pl.search_song(Some(String::from("Zebra")));
    assert!(none.is_empty());

    let all = pl.search_song(None);
    assert_eq!(all.len(), 3);

    let case_sensitive = pl.search_song(Some(String::from("world")));
    assert!(case_sensitive.is_empty());
}
