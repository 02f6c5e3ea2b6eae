use launchpi::mpris::{percent_decoded, PlaybackStatus, PlayerRoster};

fn playing(bus_name: &str, roster: &mut PlayerRoster) {
    roster.apply(bus_name, Some(PlaybackStatus::Playing));
}

fn paused(bus_name: &str, roster: &mut PlayerRoster) {
    roster.apply(bus_name, Some(PlaybackStatus::Paused));
}

#[test]
fn a_file_url_path_is_percent_decoded() {
    assert_eq!(
        percent_decoded("/home/luc/Music/My%20Album/cover.jpg"),
        "/home/luc/Music/My Album/cover.jpg"
    );
    assert_eq!(percent_decoded("/plain/path.png"), "/plain/path.png");
    // A stray percent is left alone rather than eating the next two characters.
    assert_eq!(percent_decoded("/100%/x"), "/100%/x");
}

#[test]
fn escapes_that_spell_utf8_decode_to_its_characters() {
    assert_eq!(percent_decoded("caf%C3%A9"), "café");
    assert_eq!(percent_decoded("%zz%4"), "%zz%4");
    assert_eq!(percent_decoded("bad%FF"), "bad\u{fffd}");
}

#[test]
fn a_playing_player_outranks_one_that_was_paused_more_recently() {
    let mut roster = PlayerRoster::new(None);
    playing("org.mpris.MediaPlayer2.spotify", &mut roster);
    paused("org.mpris.MediaPlayer2.firefox", &mut roster);
    assert_eq!(
        roster.active().map(|(bus_name, _)| bus_name),
        Some("org.mpris.MediaPlayer2.spotify")
    );
}

#[test]
fn the_most_recent_player_wins_when_neither_is_playing() {
    let mut roster = PlayerRoster::new(None);
    paused("org.mpris.MediaPlayer2.spotify", &mut roster);
    paused("org.mpris.MediaPlayer2.firefox", &mut roster);
    assert_eq!(
        roster.active().map(|(bus_name, _)| bus_name),
        Some("org.mpris.MediaPlayer2.firefox")
    );
}

#[test]
fn a_player_that_leaves_hands_the_panel_back_to_the_one_still_running() {
    let mut roster = PlayerRoster::new(None);
    paused("org.mpris.MediaPlayer2.spotify", &mut roster);
    playing("org.mpris.MediaPlayer2.firefox", &mut roster);
    roster.forget("org.mpris.MediaPlayer2.firefox");
    assert_eq!(
        roster.active().map(|(bus_name, _)| bus_name),
        Some("org.mpris.MediaPlayer2.spotify")
    );
}

#[test]
fn a_preferred_player_matches_a_case_insensitive_substring_of_the_bus_name() {
    let roster = PlayerRoster::new(Some("  SPOTIFY ".to_string()));
    assert!(roster.accepts("org.mpris.MediaPlayer2.spotify"));
    assert!(roster.accepts("org.mpris.MediaPlayer2.spotifyd.instance7"));
    assert!(!roster.accepts("org.mpris.MediaPlayer2.firefox.instance2"));
    assert!(!roster.accepts("org.gnome.Shell"));
}

#[test]
fn an_empty_preferred_player_tracks_everything() {
    let roster = PlayerRoster::new(Some("   ".to_string()));
    assert!(roster.accepts("org.mpris.MediaPlayer2.firefox"));
    assert!(!roster.accepts("org.freedesktop.DBus"));
}

#[test]
fn a_player_the_instance_does_not_want_is_never_tracked() {
    let mut roster = PlayerRoster::new(Some("spotify".to_string()));
    playing("org.mpris.MediaPlayer2.firefox", &mut roster);
    assert!(roster.active().is_none());
}

#[test]
fn an_update_without_a_status_keeps_the_one_reported_before() {
    let mut roster = PlayerRoster::new(None);
    playing("org.mpris.MediaPlayer2.spotify", &mut roster);
    paused("org.mpris.MediaPlayer2.firefox", &mut roster);
    assert!(roster.apply("org.mpris.MediaPlayer2.spotify", None));
    assert_eq!(
        roster.active(),
        Some(("org.mpris.MediaPlayer2.spotify", PlaybackStatus::Playing))
    );
    assert!(roster.apply("org.mpris.MediaPlayer2.vlc", None));
    assert_eq!(roster.update_count(), 4);
    assert_eq!(
        roster.active().map(|(_, status)| status),
        Some(PlaybackStatus::Playing)
    );
}
