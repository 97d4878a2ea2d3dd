use deskbar::bar::{menu_button, BarData, MediaMessage};
use deskbar::hyprland::{HyprlandData, MonitorInfo};
use deskbar::media::{
    art, artists, media, current_time, length, play_pause_button, skip_button_shown, time_label, title,
    watcher_reports, ArtSource, ControlIcon, MediaData, MediaPlayer, PlaybackStatus,
    PlayerCommand, PlayerEventKind, PlayerUpdate, TrackMeta, TrackTime,
};
use deskbar::time::ClockTime;

fn meta(title: Option<&str>, length: Option<u64>) -> TrackMeta {
    TrackMeta {
        title: title.map(|t| t.to_string()),
        artists: None,
        art_url: None,
        length: length.map(|secs| TrackTime { secs, nanos: 0 }),
    }
}

fn player(handle: u32, name: &str, identity: &str) -> MediaPlayer<u32> {
    MediaPlayer {
        handle,
        unique_name: name.to_string(),
        identity: identity.to_string(),
        meta: meta(None, Some(200)),
        status: PlaybackStatus::Stopped,
        position: TrackTime { secs: 0, nanos: 0 },
    }
}

fn names(found: &[&str]) -> Vec<String> {
    found.iter().map(|s| s.to_string()).collect()
}

fn bar(monitors: usize) -> BarData<u32> {
    let monitors = (0..monitors).map(|i| MonitorInfo { id: i as i128, active_workspace: 1 }).collect();
    BarData::new(HyprlandData::new(vec![], monitors, vec![]), MediaData::new(), ClockTime { hour: 9, minute: 5 })
}

fn start(data: &BarData<u32>, found: &[String]) -> Vec<MediaPlayer<u32>> {
    data.media
        .new_players(&found.to_vec())
        .into_iter()
        .map(|k| player(k as u32, &found[k], &format!("id{k}")))
        .collect()
}

#[test]
fn poll_starts_only_unknown_players_once() {
    let mut data = bar(1);
    data.media.players.push(player(99, ":1.5", "vlc"));
    let found = names(&[":1.7", ":1.5", ":1.7", ":1.9"]);
    assert_eq!(data.media.new_players(&found), vec![0, 3]);
}

#[test]
fn poll_drops_vanished_players_and_keeps_found_ones() {
    let mut data = bar(1);
    data.media.players.push(player(1, ":1.1", "a"));
    data.media.players.push(player(2, ":1.2", "b"));
    let found = names(&[":1.2", ":1.3"]);
    let started = start(&data, &found);
    assert_eq!(started.len(), 1);
    let action = data.media_event(Some(MediaMessage::Polled(found.clone(), started)));
    assert!(!action.rebuild);
    let kept: Vec<_> = data.media.players.iter().map(|p| p.unique_name.clone()).collect();
    assert_eq!(kept, vec![":1.2", ":1.3"]);
}

#[test]
fn polling_twice_starts_nothing_new() {
    let mut data = bar(1);
    data.media.players.push(player(1, ":1.1", "a"));
    let found = names(&[":1.4", ":1.1", ":1.4"]);
    let started = start(&data, &found);
    data.media_event(Some(MediaMessage::Polled(found.clone(), started)));
    assert!(data.media.new_players(&found).is_empty());
    let kept: Vec<_> = data.media.players.iter().map(|p| p.unique_name.clone()).collect();
    assert_eq!(kept, vec![":1.1", ":1.4"]);
}

#[test]
fn update_reaches_first_player_with_identity_only() {
    let mut data = bar(2);
    data.menus_open[1] = true;
    data.media.players.push(player(1, ":1.1", "spotify"));
    data.media.players.push(player(2, ":1.2", "spotify"));
    let action = data.media_event(Some(MediaMessage::Update(
        "spotify".to_string(),
        PlayerUpdate::Status(PlaybackStatus::Playing),
    )));
    assert!(action.rebuild);
    assert_eq!(data.media.players[0].status, PlaybackStatus::Playing);
    assert_eq!(data.media.players[1].status, PlaybackStatus::Stopped);
    data.media_event(Some(MediaMessage::Update(
        "spotify".to_string(),
        PlayerUpdate::Position(TrackTime { secs: 61, nanos: 3 }),
    )));
    assert_eq!(data.media.players[0].position, TrackTime { secs: 61, nanos: 3 });
    data.media_event(Some(MediaMessage::Update(
        "spotify".to_string(),
        PlayerUpdate::Metadata(meta(Some("Song"), None)),
    )));
    assert_eq!(data.media.players[0].meta.title.as_deref(), Some("Song"));
}

#[test]
fn update_under_unknown_identity_changes_nothing() {
    let mut data = bar(1);
    data.media.players.push(player(1, ":1.1", "mpv"));
    let action = data.media_event(Some(MediaMessage::Update(
        "vlc".to_string(),
        PlayerUpdate::Status(PlaybackStatus::Paused),
    )));
    assert!(!action.rebuild);
    assert_eq!(data.media.players[0].status, PlaybackStatus::Stopped);
    assert!(!data.media_event(None).rebuild);
}

#[test]
fn shown_players_have_a_length() {
    let mut data = MediaData::new();
    data.players.push(player(1, ":1.1", "a"));
    data.players.push(player(2, ":1.2", "b"));
    data.players[0].meta.length = None;
    data.players.push(player(3, ":1.3", "c"));
    assert_eq!(media(&data), vec![1, 2]);
}

#[test]
fn time_labels() {
    assert_eq!(time_label(TrackTime { secs: 0, nanos: 0 }).as_deref(), Some("00:00"));
    assert_eq!(time_label(TrackTime { secs: 3725, nanos: 999_999_999 }).as_deref(), Some("02:05"));
    assert_eq!(time_label(TrackTime { secs: 59 * 60 + 59, nanos: 0 }).as_deref(), Some("59:59"));
    assert_eq!(time_label(TrackTime { secs: 9_223_372_036_854_775, nanos: 807_000_000 }).is_some(), true);
    assert_eq!(time_label(TrackTime { secs: 9_223_372_036_854_775, nanos: 807_000_001 }), None);
    assert_eq!(time_label(TrackTime { secs: u64::MAX, nanos: 0 }), None);
}

#[test]
fn player_labels() {
    let mut p = player(1, ":1.1", "a");
    p.position = TrackTime { secs: 75, nanos: 0 };
    assert_eq!(current_time(&p).as_deref(), Some("01:15"));
    assert_eq!(length(&p.meta).as_deref(), Some("03:20"));
    assert_eq!(length(&meta(None, None)), None);
    assert_eq!(title(&meta(Some("Title"), None)).as_deref(), Some("Title"));
    assert_eq!(title(&meta(None, None)), None);
    let mut m = meta(None, None);
    assert_eq!(artists(&m), None);
    m.artists = Some(vec!["A".to_string(), "B".to_string(), "C".to_string()]);
    assert_eq!(artists(&m).as_deref(), Some("A, B, C"));
    m.artists = Some(vec![]);
    assert_eq!(artists(&m).as_deref(), Some(""));
}

#[test]
fn art_sources() {
    let mut m = meta(None, None);
    assert!(art(&m).is_none());
    m.art_url = Some("file:///tmp/cover.png".to_string());
    match art(&m) {
        Some(ArtSource::File(path)) => assert_eq!(path, "/tmp/cover.png"),
        other => panic!("unexpected {other:?}"),
    }
    m.art_url = Some("https://example.org/a.jpg".to_string());
    match art(&m) {
        Some(ArtSource::Remote(url)) => assert_eq!(url, "https://example.org/a.jpg"),
        other => panic!("unexpected {other:?}"),
    }
}

#[test]
fn controls() {
    let b = play_pause_button(PlaybackStatus::Playing);
    assert_eq!((b.icon, b.command), (ControlIcon::Pause, Some(PlayerCommand::Pause)));
    let b = play_pause_button(PlaybackStatus::Paused);
    assert_eq!((b.icon, b.command), (ControlIcon::Play, Some(PlayerCommand::Play)));
    let b = play_pause_button(PlaybackStatus::Stopped);
    assert_eq!((b.icon, b.command), (ControlIcon::Pause, None));
    assert!(skip_button_shown(Some(true)));
    assert!(!skip_button_shown(Some(false)));
    assert!(!skip_button_shown(None));
}

#[test]
fn watcher_reports_per_event() {
    let r = watcher_reports(PlayerEventKind::Paused);
    assert!(r.status && r.metadata);
    let r = watcher_reports(PlayerEventKind::TrackChanged);
    assert!(!r.status && r.metadata);
    let r = watcher_reports(PlayerEventKind::Other);
    assert!(!r.status && !r.metadata);
}

#[test]
fn menus_toggle_and_report_open() {
    let mut data = bar(2);
    assert_eq!(data.menus_open, vec![false, false]);
    assert!(!data.menu_open());
    assert_eq!(menu_button(&data, 0).classes, "menu-button closed");
    data.toggle_menu(0);
    assert!(data.menu_open());
    assert!(menu_button(&data, 0).open);
    assert_eq!(menu_button(&data, 0).classes, "menu-button open");
    data.toggle_menu(0);
    assert_eq!(data.menus_open, vec![false, false]);
    assert!(!data.menu_open());
}

#[test]
fn clock_ticks() {
    let mut data = bar(1);
    assert!(data.time_event(Some(ClockTime { hour: 23, minute: 59 })).rebuild);
    assert_eq!(data.time, ClockTime { hour: 23, minute: 59 });
    assert!(!data.time_event(None).rebuild);
    assert_eq!(data.time, ClockTime { hour: 23, minute: 59 });
}

#[test]
fn names_stay_distinct_across_polls() {
    let mut data = bar(1);
    for found in [names(&[":1.1", ":1.1", ":1.2"]), names(&[":1.2", ":1.3", ":1.1", ":1.3"]), names(&[":1.3"])] {
        let started = start(&data, &found);
        data.media_event(Some(MediaMessage::Polled(found.clone(), started)));
        let mut seen: Vec<String> = data.media.players.iter().map(|p| p.unique_name.clone()).collect();
        let count = seen.len();
        seen.sort();
        seen.dedup();
        assert_eq!(seen.len(), count);
    }
    let left: Vec<_> = data.media.players.iter().map(|p| p.unique_name.clone()).collect();
    assert_eq!(left, vec![":1.3"]);
}
