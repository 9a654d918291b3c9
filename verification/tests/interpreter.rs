use music_app::command::{handle_command, Response};
use music_app::playlist::Playlist;
use music_app::song::Song;
use music_app::text::parse_u64;
use music_app::song::margin_adjusted_secs;

#[test]
fn empty_line_is_no_command() {
    let mut pl = Playlist::new();
    let r = handle_command("   \t  ", &mut pl);
    assert!(matches!(r, Response::NoCommand));
    assert_eq!(pl.len(), 0);
}

#[test]
fn add_scenario_via_interpreter() {
    let mut pl = Playlist::new();
    let r = handle_command("add Test Someone ./test.mp3", &mut pl);
    let expected = Song::generate_uid("Test", "Someone");
    match r {
        Response::Added { id, title, artist } => {
            assert_eq!(id, expected);
            assert_eq!(title, "Test");
            assert_eq!(artist, "Someone");
        },
        _ => panic!("expected an add confirmation"),
    }
    assert_eq!(pl.len(), 1);

    let r = handle_command("search Test", &mut pl);
    match r {
        Response::Results { keyword, songs } => {
            assert_eq!(keyword.as_deref(), Some("Test"));
            assert_eq!(songs.len(), 1);
            assert_eq!(songs[0].id, expected);
            assert_eq!(songs[0].file_path, "./test.mp3");
        },
        _ => panic!("expected search results"),
    }

    let line = format!("remove {}", expected);
    let r = handle_command(&line, &mut pl);
    assert!(matches!(r, Response::Removed { id } if id == expected));
    assert_eq!(pl.len(), 0);
}

#[test]
fn play_on_empty_registry_reports_not_found() {
    let mut pl = Playlist::new();
    let r = handle_command("play 12345", &mut pl);
    assert!(matches!(r, Response::NotFound { id: 12345 }));
    assert_eq!(pl.len(), 0);
}

#[test]
fn play_on_present_id_hands_out_the_entry() {
    let mut pl = Playlist::new();
    let id = pl.add_song("Test", "Someone", "./test.mp3");
    let line = format!("play {}", id);
    let r = handle_command(&line, &mut pl);
    match r {
        Response::Play { song } => {
            assert_eq!(song.id, id);
            assert_eq!(song.file_path, "./test.mp3");
        },
        _ => panic!("expected a play request"),
    }
    assert_eq!(pl.len(), 1);
}

#[test]
fn add_with_two_arguments_reports_usage() {
    let mut pl = Playlist::new();
    let r = handle_command("add Title Artist", &mut pl);
    assert!(matches!(r, Response::UsageAdd));
    assert_eq!(pl.len(), 0);
}

#[test]
fn remove_and_play_without_argument_report_usage() {
    let mut pl = Playlist::new();
    assert!(matches!(handle_command("remove", &mut pl), Response::UsageRemove));
    assert!(matches!(handle_command("play", &mut pl), Response::UsagePlay));
    assert_eq!(pl.len(), 0);
}

#[test]
fn malformed_id_is_reported_not_treated_as_zero() {
    let mut pl = Playlist::new();
    let r = handle_command("remove abc", &mut pl);
    assert!(matches!(r, Response::InvalidId { ref arg } if arg == "abc"));
    let r = handle_command("play 12x4", &mut pl);
    assert!(matches!(r, Response::InvalidId { ref arg } if arg == "12x4"));
    let r = handle_command("remove 18446744073709551616", &mut pl);
    assert!(matches!(r, Response::InvalidId { .. }));
    let r = handle_command("remove 18446744073709551615", &mut pl);
    assert!(matches!(r, Response::NotFound { id: u64::MAX }));
}

#[test]
fn unknown_command_is_reported() {
    let mut pl = Playlist::new();
    let r = handle_command("quit now", &mut pl);
    assert!(matches!(r, Response::Unknown { ref word } if word == "quit"));
    assert_eq!(pl.len(), 0);
}

#[test]
fn search_keyword_is_rejoined_with_single_spaces() {
    let mut pl = Playlist::new();
    pl.add_song("Hello World", "Alice", "./a.mp3");
    pl.add_song("HelloWorld", "Bob", "./b.mp3");
    let r = handle_command("search Hello   World", &mut pl);
    match r {
        Response::Results { keyword, songs } => {
            assert_eq!(keyword.as_deref(), Some("Hello World"));
            assert_eq!(songs.len(), 1);
            assert_eq!(songs[0].artist, "Alice");
        },
        _ => panic!("expected search results"),
    }
}

#[test]
fn search_without_keyword_lists_everything() {
    let mut pl = Playlist::new();
    pl.add_song("One", "A", "./1.mp3");
    pl.add_song("Two", "B", "./2.mp3");
    let r = handle_command("search", &mut pl);
    match r {
        Response::Results { keyword, songs } => {
            assert!(keyword.is_none());
            assert_eq!(songs.len(), 2);
        },
        _ => panic!("expected search results"),
    }
}

#[test]
fn parse_u64_accepts_digits_only() {
    assert_eq!(parse_u64("0"), Some(0));
    assert_eq!(parse_u64("007"), Some(7));
    assert_eq!(parse_u64("18446744073709551615"), Some(u64::MAX));
    assert_eq!(parse_u64("18446744073709551616"), None);
    assert_eq!(parse_u64(""), None);
    assert_eq!(parse_u64("-3"), None);
    assert_eq!(parse_u64("1 2"), None);
}

#[test]
fn margin_extends_by_one_second() {
    assert_eq!(margin_adjusted_secs(0), 1);
    assert_eq!(margin_adjusted_secs(179), 180);
    assert_eq!(margin_adjusted_secs(u64::MAX), u64::MAX);
}
