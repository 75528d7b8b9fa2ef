use lol_player::player::AudioPlayer;
use lol_player::player::AudioSink;

struct MockSink {
    loads: Vec<String>,
    accept: bool,
    empty: bool,
    pauses: usize,
    resumes: usize,
}

impl MockSink {
    fn new() -> MockSink {
        MockSink { loads: Vec::new(), accept: true, empty: false, pauses: 0, resumes: 0 }
    }
}

impl AudioSink for MockSink {
    fn load_and_play(&mut self, path: &str) -> bool {
        if self.accept {
            self.loads.push(path.to_string());
            true
        } else {
            false
        }
    }

    fn pause(&mut self) {
        self.pauses += 1;
    }

    fn resume(&mut self) {
        self.resumes += 1;
    }

    fn is_empty(&self) -> bool {
        self.empty
    }
}

fn load(player: &mut AudioPlayer, paths: &[&str]) {
    let entries: Vec<String> = paths.iter().map(|p| p.to_string()).collect();
    player.load_songs_from_dir(&entries);
}

fn current_ord(player: &AudioPlayer) -> Option<usize> {
    player.get_current_song().map(|t| t.ord)
}

#[test]
fn test_scenario_two_songs() {
    let mut player = AudioPlayer::new();
    let mut sink = MockSink::new();
    load(&mut player, &["/d/song2.mp3", "/d/song1.mp3"]);

    let songs = player.get_songs();
    assert_eq!(songs.len(), 2);
    assert_eq!(songs[0].ord, 0);
    assert_eq!(songs[0].path, "/d/song1.mp3");
    assert_eq!(songs[1].ord, 1);
    assert_eq!(songs[1].path, "/d/song2.mp3");

    assert!(player.play_by_index(&mut sink, 0));
    assert_eq!(current_ord(&player), Some(0));
    assert!(player.is_playing());
    assert_eq!(sink.loads, vec!["/d/song1.mp3"]);

    assert!(player.next(&mut sink));
    assert_eq!(current_ord(&player), Some(1));
    assert_eq!(sink.loads.last().unwrap(), "/d/song2.mp3");

    assert!(player.next(&mut sink));
    assert_eq!(current_ord(&player), Some(0));
    assert_eq!(sink.loads.last().unwrap(), "/d/song1.mp3");
}

#[test]
fn test_empty_playlist_is_noop() {
    let mut player = AudioPlayer::new();
    let mut sink = MockSink::new();

    assert!(!player.next(&mut sink));
    assert!(!player.previous(&mut sink));
    player.toggle_play_pause(&mut sink);
    assert!(!player.play_by_index(&mut sink, 0));
    assert!(!player.play_by_index(&mut sink, 7));

    assert!(player.get_current_song().is_none());
    assert!(!player.is_playing());
    assert!(sink.loads.is_empty());
    assert_eq!(sink.pauses, 0);
    assert_eq!(sink.resumes, 0);
}

#[test]
fn test_out_of_range_index_leaves_state_unchanged() {
    let mut player = AudioPlayer::new();
    let mut sink = MockSink::new();
    load(&mut player, &["/m/a.mp3", "/m/b.mp3"]);
    assert!(player.play_by_index(&mut sink, 1));

    assert!(!player.play_by_index(&mut sink, 2));
    assert_eq!(current_ord(&player), Some(1));
    assert!(player.is_playing());

    assert!(!player.play_by_index(&mut sink, usize::MAX));
    assert_eq!(current_ord(&player), Some(1));
    assert_eq!(sink.loads.len(), 1);
}

#[test]
fn test_reload_resets_selection_and_playing() {
    let mut player = AudioPlayer::new();
    let mut sink = MockSink::new();
    load(&mut player, &["/m/a.mp3", "/m/b.mp3"]);
    assert!(player.play_by_index(&mut sink, 1));
    assert!(player.is_playing());

    load(&mut player, &["/m/a.mp3", "/m/b.mp3", "/m/c.mp3"]);
    assert!(player.get_current_song().is_none());
    assert!(!player.is_playing());
}

#[test]
fn test_monitor_advances_exactly_once() {
    let mut player = AudioPlayer::new();
    let mut sink = MockSink::new();
    load(&mut player, &["/m/a.mp3", "/m/b.mp3"]);
    assert!(player.play_by_index(&mut sink, 0));
    assert_eq!(sink.loads.len(), 1);

    sink.empty = true;
    let (saw_empty, advanced) = player.monitor_tick(&mut sink);
    assert!(saw_empty);
    assert!(advanced);
    assert_eq!(current_ord(&player), Some(1));
    assert_eq!(sink.loads.len(), 2);
}

#[test]
fn test_monitor_wraps_on_single_track() {
    let mut player = AudioPlayer::new();
    let mut sink = MockSink::new();
    load(&mut player, &["/m/only.mp3"]);
    assert!(player.play_by_index(&mut sink, 0));

    sink.empty = true;
    let (saw_empty, advanced) = player.monitor_tick(&mut sink);
    assert!(saw_empty);
    assert!(advanced);
    assert_eq!(current_ord(&player), Some(0));
    assert_eq!(sink.loads.len(), 2);
}

#[test]
fn test_monitor_does_not_advance_when_idle() {
    let mut player = AudioPlayer::new();
    let mut sink = MockSink::new();
    load(&mut player, &["/m/a.mp3", "/m/b.mp3"]);

    // not playing, sink empty
    sink.empty = true;
    let (saw_empty, advanced) = player.monitor_tick(&mut sink);
    assert!(saw_empty);
    assert!(!advanced);
    assert!(sink.loads.is_empty());

    // playing, sink still has audio
    assert!(player.play_by_index(&mut sink, 0));
    sink.empty = false;
    let (saw_empty, advanced) = player.monitor_tick(&mut sink);
    assert!(!saw_empty);
    assert!(!advanced);
    assert_eq!(current_ord(&player), Some(0));
    assert_eq!(sink.loads.len(), 1);
}

#[test]
fn test_monitor_with_refusing_sink_changes_nothing() {
    let mut player = AudioPlayer::new();
    let mut sink = MockSink::new();
    load(&mut player, &["/m/a.mp3", "/m/b.mp3"]);
    assert!(player.play_by_index(&mut sink, 0));

    sink.empty = true;
    sink.accept = false;
    let (saw_empty, advanced) = player.monitor_tick(&mut sink);
    assert!(saw_empty);
    assert!(!advanced);
    assert_eq!(current_ord(&player), Some(0));
    assert!(player.is_playing());
}

#[test]
fn test_next_and_previous_are_circular() {
    let mut player = AudioPlayer::new();
    let mut sink = MockSink::new();
    load(&mut player, &["/m/a.mp3", "/m/b.mp3", "/m/c.mp3"]);
    assert!(player.play_by_index(&mut sink, 1));

    for _ in 0..3 {
        assert!(player.next(&mut sink));
    }
    assert_eq!(current_ord(&player), Some(1));

    for _ in 0..3 {
        assert!(player.previous(&mut sink));
    }
    assert_eq!(current_ord(&player), Some(1));
}

#[test]
fn test_next_wraps_from_last_to_first() {
    let mut player = AudioPlayer::new();
    let mut sink = MockSink::new();
    load(&mut player, &["/m/a.mp3", "/m/b.mp3"]);
    assert!(player.play_by_index(&mut sink, 1));
    assert!(player.next(&mut sink));
    assert_eq!(current_ord(&player), Some(0));
}

#[test]
fn test_previous_wraps_from_first_to_last() {
    let mut player = AudioPlayer::new();
    let mut sink = MockSink::new();
    load(&mut player, &["/m/a.mp3", "/m/b.mp3", "/m/c.mp3"]);
    assert!(player.play_by_index(&mut sink, 0));
    assert!(player.previous(&mut sink));
    assert_eq!(current_ord(&player), Some(2));
}

#[test]
fn test_next_with_no_selection_picks_first() {
    let mut player = AudioPlayer::new();
    let mut sink = MockSink::new();
    load(&mut player, &["/m/b.mp3", "/m/a.mp3"]);
    assert!(player.next(&mut sink));
    assert_eq!(current_ord(&player), Some(0));
    assert_eq!(sink.loads, vec!["/m/a.mp3"]);
}

#[test]
fn test_previous_with_no_selection_picks_first() {
    let mut player = AudioPlayer::new();
    let mut sink = MockSink::new();
    load(&mut player, &["/m/a.mp3", "/m/b.mp3"]);
    assert!(player.previous(&mut sink));
    assert_eq!(current_ord(&player), Some(0));
}

#[test]
fn test_toggle_pauses_and_resumes() {
    let mut player = AudioPlayer::new();
    let mut sink = MockSink::new();
    load(&mut player, &["/m/a.mp3"]);
    assert!(player.play_by_index(&mut sink, 0));
    assert!(player.is_playing());

    player.toggle_play_pause(&mut sink);
    assert!(!player.is_playing());
    assert_eq!(sink.pauses, 1);

    player.toggle_play_pause(&mut sink);
    assert!(player.is_playing());
    assert_eq!(sink.resumes, 1);
}

#[test]
fn test_refused_load_changes_nothing() {
    let mut player = AudioPlayer::new();
    let mut sink = MockSink::new();
    sink.accept = false;
    load(&mut player, &["/m/a.mp3", "/m/b.mp3"]);

    assert!(!player.play_by_index(&mut sink, 0));
    assert!(player.get_current_song().is_none());
    assert!(!player.is_playing());

    assert!(!player.next(&mut sink));
    assert!(player.get_current_song().is_none());
    assert!(!player.is_playing());
}

#[test]
fn test_default_matches_new() {
    let player: AudioPlayer = Default::default();
    assert!(player.get_songs().is_empty());
    assert!(player.get_current_song().is_none());
    assert!(!player.is_playing());
}

#[test]
fn test_get_current_song_returns_the_track() {
    let mut player = AudioPlayer::new();
    let mut sink = MockSink::new();
    load(&mut player, &["/m/b.mp3", "/m/a.mp3"]);
    assert!(player.play_by_index(&mut sink, 1));
    let track = player.get_current_song().unwrap();
    assert_eq!(track.ord, 1);
    assert_eq!(track.path, "/m/b.mp3");
}
