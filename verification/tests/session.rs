//! A session with the player.
use music_player::mode::{RepeatMode, VisualizerTheme};
use music_player::session::{Action, AnalysisUpdate, Key, Session};
use music_player::spectrum::AnalysisMessage;
use music_player::time::PlayTime;
use music_player::track::{TrackFile, TrackMetadata, TrackVisual};

const START: PlayTime = PlayTime { secs: 0, nanos: 0 };

fn session_of(names: &[&str]) -> Session {
    let files = names
        .iter()
        .map(|name| TrackFile { file_name: Some(String::from(*name)), extension: None })
        .collect();
    Session::new(files).unwrap()
}

fn session() -> Session {
    session_of(&["alpha", "beta", "gamma", "delta"])
}

fn press(session: &mut Session, key: Key) -> Action {
    session.press(key, START, false, 7)
}

fn type_text(session: &mut Session, text: &str) {
    for c in text.chars() {
        assert_eq!(press(session, Key::Char(c)), Action::Stay);
    }
}

fn play(session: &mut Session, index: usize) {
    session.started(index, Ok(()), None, false, 0);
}

fn visual(secs: u64) -> TrackVisual {
    TrackVisual { duration: Some(PlayTime { secs, nanos: 0 }), spectra: vec![vec![1]] }
}

fn tags(title: &str) -> TrackMetadata {
    TrackMetadata { title: Some(String::from(title)), artist: None, album: None }
}

#[test]
fn a_session_needs_tracks() {
    assert!(Session::new(Vec::new()).is_none());
}

#[test]
fn a_session_starts() {
    let session = session();
    assert_eq!(session.current_index, 0);
    assert_eq!(session.playing_index, None);
    assert!(session.visual.is_none() && session.metadata.is_none());
    assert_eq!(session.pending, None);
    assert_eq!(session.search_query, "");
    assert!(!session.is_searching && !session.shuffle);
    assert_eq!(session.repeat_mode, RepeatMode::Off);
    assert_eq!(session.theme, VisualizerTheme::Cyberpunk);
    assert_eq!(session.playlist(), vec![0, 1, 2, 3]);
    assert_eq!(
        session.status,
        "Use / to search, j/k to select, Enter to play, Left/Right to seek."
    );
}

#[test]
fn keys_move_the_selection() {
    let mut session = session();
    assert_eq!(press(&mut session, Key::Up), Action::Stay);
    assert_eq!(session.current_index, 0);
    press(&mut session, Key::Down);
    press(&mut session, Key::Down);
    assert_eq!(session.current_index, 2);
    press(&mut session, Key::Up);
    assert_eq!(session.current_index, 1);
    for _ in 0..9 {
        press(&mut session, Key::Down);
    }
    assert_eq!(session.current_index, 3);
}

#[test]
fn other_keys_do_nothing() {
    let mut session = session();
    for key in [Key::Other, Key::Backspace, Key::Char('x'), Key::Char('Q'), Key::Char('j')] {
        assert_eq!(press(&mut session, key), Action::Stay);
    }
    assert_eq!(session.current_index, 0);
    assert!(session.status.starts_with("Use / to search"));
}

#[test]
fn the_program_is_left_on_request() {
    assert_eq!(press(&mut session(), Key::Char('q')), Action::Quit);
    assert_eq!(press(&mut session(), Key::Esc), Action::Quit);
}

#[test]
fn a_search_selects_what_it_finds() {
    let mut session = session();
    assert_eq!(press(&mut session, Key::Char('/')), Action::Stay);
    assert!(session.is_searching);
    assert_eq!(session.status, "Type to fuzzy-search tracks. Esc clears search.");
    type_text(&mut session, "mm");
    assert_eq!(session.search_query, "mm");
    assert_eq!(session.playlist(), vec![2]);
    assert_eq!(session.current_index, 2);
    press(&mut session, Key::Backspace);
    assert_eq!(session.search_query, "m");
    press(&mut session, Key::Enter);
    assert!(!session.is_searching);
    assert_eq!(session.search_query, "m");
    assert_eq!(session.current_index, 2);
}

#[test]
fn a_search_takes_every_printable_key() {
    let mut session = session();
    press(&mut session, Key::Char('/'));
    type_text(&mut session, "q/ +é");
    press(&mut session, Key::Char('\u{7}'));
    press(&mut session, Key::Left);
    assert_eq!(session.search_query, "q/ +é");
    assert_eq!(session.playlist(), Vec::<usize>::new());
    assert_eq!(session.current_index, 0);
    press(&mut session, Key::Backspace);
    assert_eq!(session.search_query, "q/ +");
}

#[test]
fn backspace_on_an_empty_search_does_nothing() {
    let mut session = session();
    press(&mut session, Key::Char('/'));
    press(&mut session, Key::Backspace);
    assert_eq!(session.search_query, "");
    assert!(session.is_searching);
}

#[test]
fn escape_clears_a_search() {
    let mut session = session();
    press(&mut session, Key::Char('/'));
    type_text(&mut session, "gam");
    assert_eq!(press(&mut session, Key::Esc), Action::Stay);
    assert!(!session.is_searching);
    assert_eq!(session.search_query, "");
    assert_eq!(session.current_index, 0);
    assert_eq!(session.status, "Search cleared.");
}

#[test]
fn escape_clears_a_finished_search() {
    let mut session = session();
    press(&mut session, Key::Char('/'));
    type_text(&mut session, "gam");
    press(&mut session, Key::Enter);
    assert_eq!(press(&mut session, Key::Esc), Action::Stay);
    assert_eq!(session.search_query, "");
    assert_eq!(session.current_index, 0);
    assert_eq!(session.status, "Search cleared.");
    assert_eq!(press(&mut session, Key::Esc), Action::Quit);
}

#[test]
fn the_selection_settles_on_what_is_found() {
    let mut session = session();
    session.search_query = String::from("ta");
    session.settle_selection();
    assert_eq!(session.playlist(), vec![1, 3]);
    assert_eq!(session.current_index, 1);
    session.current_index = 3;
    session.settle_selection();
    assert_eq!(session.current_index, 3);
    session.search_query = String::from("nothing");
    session.settle_selection();
    assert_eq!(session.current_index, 3);
}

#[test]
fn enter_restarts_with_the_selected_track() {
    let mut session = session();
    press(&mut session, Key::Down);
    assert_eq!(press(&mut session, Key::Enter), Action::Restart { index: 1 });
    session.search_query = String::from("nothing");
    assert_eq!(press(&mut session, Key::Enter), Action::Stay);
    assert_eq!(session.status, "No matching track selected.");
}

#[test]
fn space_starts_holds_and_resumes() {
    let mut session = session();
    assert_eq!(press(&mut session, Key::Char(' ')), Action::Start { index: 0 });
    play(&mut session, 0);
    assert_eq!(session.press(Key::Char(' '), START, false, 0), Action::Pause);
    assert_eq!(session.status, "Paused alpha.");
    assert_eq!(session.press(Key::Char(' '), START, true, 0), Action::Resume);
    assert_eq!(session.status, "Playing alpha.");
}

#[test]
fn space_needs_a_listed_track() {
    let mut session = session();
    session.search_query = String::from("nothing");
    assert_eq!(press(&mut session, Key::Char(' ')), Action::Stay);
    assert_eq!(session.status, "No matching track selected.");
}

#[test]
fn a_track_is_started() {
    let mut session = session();
    session.started(2, Ok(()), Some(tags("Third")), true, 7);
    assert_eq!(session.playing_index, Some(2));
    assert_eq!(session.pending, Some(2));
    assert_eq!(session.metadata.as_ref().unwrap().title.as_deref(), Some("Third"));
    assert_eq!(session.status, "Playing gamma.");
    assert_eq!(session.shuffle_queue, Vec::<usize>::new());
}

#[test]
fn a_track_cannot_be_started() {
    let mut session = session();
    play(&mut session, 0);
    session.analyzed(AnalysisUpdate::Report(AnalysisMessage::Preview(visual(9))));
    session.started(2, Err(String::from("no such file")), None, true, 7);
    assert_eq!(session.playing_index, None);
    assert_eq!(session.pending, None);
    assert!(session.visual.is_none());
    assert_eq!(session.status, "Could not play gamma: no such file");
}

#[test]
fn a_start_fills_the_shuffle_queue() {
    let mut session = session();
    press(&mut session, Key::Char('s'));
    session.started(1, Ok(()), None, true, 7);
    assert_eq!(session.shuffle_queue, vec![0, 2, 3]);
    session.started(2, Ok(()), None, false, 7);
    assert_eq!(session.shuffle_queue, vec![0, 2, 3]);
}

#[test]
fn the_volume_changes() {
    let mut session = session();
    assert_eq!(press(&mut session, Key::Char('+')), Action::VolumeUp);
    assert_eq!(press(&mut session, Key::Char('-')), Action::VolumeDown);
    session.volume_changed("95%");
    assert_eq!(session.status, "Volume 95%.");
}

#[test]
fn keys_seek() {
    let mut session = session();
    let position = PlayTime { secs: 12, nanos: 3 };
    play(&mut session, 0);
    let ahead = Action::Seek { target: PlayTime { secs: 17, nanos: 3 } };
    let back = Action::Seek { target: PlayTime { secs: 7, nanos: 3 } };
    assert_eq!(session.press(Key::Right, position, false, 0), ahead);
    assert_eq!(session.press(Key::Left, position, false, 0), back);
    session.analyzed(AnalysisUpdate::Report(AnalysisMessage::Preview(visual(15))));
    let end = Action::Seek { target: PlayTime { secs: 15, nanos: 0 } };
    assert_eq!(session.press(Key::Right, position, false, 0), end);
}

#[test]
fn a_seek_needs_a_track() {
    let mut session = session();
    assert_eq!(press(&mut session, Key::Left), Action::Stay);
    assert_eq!(session.status, "Could not seek: nothing is playing");
}

#[test]
fn the_outcome_of_a_seek_is_shown() {
    let mut session = session();
    assert!(session.seeked(Ok(PlayTime { secs: 65, nanos: 1 })));
    assert_eq!(session.status, "Seeked to 01:05.");
    assert!(!session.seeked(Err(String::from("not supported"))));
    assert_eq!(session.status, "Could not seek: not supported");
}

#[test]
fn keys_switch_the_repeat_mode() {
    let mut session = session();
    let steps = [('a', "All"), ('A', "One"), ('r', "Off"), ('R', "All")];
    for (key, name) in steps {
        assert_eq!(press(&mut session, Key::Char(key)), Action::Stay);
        assert_eq!(session.status, format!("Repeat mode set to {}.", name));
        assert_eq!(session.repeat_mode.name(), name);
    }
}

#[test]
fn keys_switch_the_theme() {
    let mut session = session();
    press(&mut session, Key::Char('t'));
    assert_eq!(session.theme, VisualizerTheme::Sunset);
    assert_eq!(session.status, "Visualizer theme set to Golden Sunset.");
    press(&mut session, Key::Char('T'));
    assert_eq!(session.theme, VisualizerTheme::Aurora);
}

#[test]
fn keys_switch_shuffled_play() {
    let mut session = session();
    play(&mut session, 1);
    press(&mut session, Key::Char('s'));
    assert!(session.shuffle);
    assert_eq!(session.status, "Shuffle enabled.");
    assert_eq!(session.shuffle_queue, vec![0, 2, 3]);
    press(&mut session, Key::Char('S'));
    assert!(!session.shuffle);
    assert_eq!(session.status, "Shuffle disabled.");
    assert_eq!(session.shuffle_queue, Vec::<usize>::new());
}

#[test]
fn tracks_follow_one_another() {
    let mut session = session();
    play(&mut session, 2);
    assert_eq!(session.track_ended(0), Some(3));
    assert_eq!(session.current_index, 3);
    assert_eq!(session.playing_index, None);
    assert_eq!(session.pending, None);
    assert!(session.visual.is_none() && session.metadata.is_none());
    play(&mut session, 3);
    assert_eq!(session.track_ended(0), None);
    assert_eq!(session.status, "Finished.");
    assert_eq!(session.current_index, 3);
}

#[test]
fn the_search_decides_what_follows() {
    let mut session = session();
    session.search_query = String::from("ta");
    play(&mut session, 1);
    assert_eq!(session.track_ended(0), Some(3));
    play(&mut session, 0);
    assert_eq!(session.track_ended(0), None);
}

#[test]
fn a_repeating_track_follows_itself() {
    let mut session = session();
    session.repeat_mode = RepeatMode::One;
    play(&mut session, 2);
    assert_eq!(session.track_ended(0), Some(2));
    session.repeat_mode = RepeatMode::All;
    play(&mut session, 3);
    assert_eq!(session.track_ended(0), Some(0));
}

#[test]
fn shuffled_tracks_follow_from_the_queue() {
    let mut session = session();
    press(&mut session, Key::Char('s'));
    session.started(1, Ok(()), None, true, 7);
    let mut played = Vec::new();
    while let Some(next) = session.track_ended(0) {
        played.push(next);
        play(&mut session, next);
    }
    assert_eq!(played, vec![0, 2, 3]);
    assert_eq!(session.status, "Finished.");
}

#[test]
fn a_preview_is_shown() {
    let mut session = session();
    play(&mut session, 1);
    assert!(session.analyzed(AnalysisUpdate::Report(AnalysisMessage::Preview(visual(9)))));
    assert_eq!(session.visual.as_ref().unwrap().duration.unwrap().secs, 9);
    assert_eq!(session.pending, Some(1));
}

#[test]
fn a_complete_analysis_is_shown() {
    let mut session = session();
    play(&mut session, 1);
    session.volume_changed("5%");
    assert!(session.analyzed(AnalysisUpdate::Report(AnalysisMessage::Complete(visual(8)))));
    assert_eq!(session.visual.as_ref().unwrap().duration.unwrap().secs, 8);
    assert_eq!(session.pending, None);
    assert_eq!(session.status, "Playing beta.");
}

#[test]
fn a_failed_analysis_is_told() {
    let mut session = session();
    play(&mut session, 1);
    let failure = AnalysisMessage::Failed(String::from("broken"));
    assert!(!session.analyzed(AnalysisUpdate::Report(failure)));
    assert_eq!(session.pending, None);
    assert_eq!(session.status, "Spectrum unavailable for beta: broken");
}

#[test]
fn an_analysis_may_stop() {
    let mut session = session();
    play(&mut session, 1);
    assert!(!session.analyzed(AnalysisUpdate::Disconnected));
    assert_eq!(session.pending, None);
    assert_eq!(session.status, "Spectrum analysis stopped.");
}

#[test]
fn news_of_another_track_is_not_shown() {
    let mut session = session();
    play(&mut session, 1);
    session.playing_index = Some(2);
    assert!(!session.analyzed(AnalysisUpdate::Report(AnalysisMessage::Preview(visual(9)))));
    assert_eq!(session.pending, Some(1));
    assert!(!session.analyzed(AnalysisUpdate::Report(AnalysisMessage::Complete(visual(9)))));
    assert!(session.visual.is_none());
    assert_eq!(session.pending, None);
    assert_eq!(session.status, "Playing beta.");
    session.pending = Some(1);
    let failure = AnalysisMessage::Failed(String::from("broken"));
    assert!(!session.analyzed(AnalysisUpdate::Report(failure)));
    assert_eq!(session.pending, None);
    assert_eq!(session.status, "Playing beta.");
}

#[test]
fn a_search_leaves_playback_alone() {
    let mut session = session();
    play(&mut session, 1);
    press(&mut session, Key::Char('s'));
    let queue = session.shuffle_queue.clone();
    press(&mut session, Key::Char('/'));
    for key in [Key::Char(' '), Key::Char('s'), Key::Right, Key::Up, Key::Enter] {
        assert_eq!(press(&mut session, key), Action::Stay);
    }
    assert_eq!(session.playing_index, Some(1));
    assert_eq!(session.pending, Some(1));
    assert_eq!(session.shuffle_queue, queue);
    assert!(session.shuffle);
}

#[test]
fn the_shuffle_queue_never_holds_what_plays() {
    let mut session = session_of(&["a1", "a2", "b1", "b2", "ab", "ba"]);
    let keys = ['s', 'r', ' ', '/', 'a', 's', 's', 't'];
    let mut number: u64 = 1;
    for _ in 0..5_000 {
        number = number.wrapping_mul(6364136223846793005).wrapping_add(1442695040888963407);
        let choice = (number >> 33) % 20;
        let key = match choice {
            0..=7 => Key::Char(keys[choice as usize]),
            8 => Key::Enter,
            9 => Key::Down,
            10 => Key::Up,
            11 => Key::Backspace,
            _ => Key::Other,
        };
        if choice > 11 && session.playing_index.is_some() {
            if let Some(next) = session.track_ended(number) {
                session.started(next, Ok(()), None, false, number);
            }
        }
        session.settle_selection();
        match session.press(key, START, false, number) {
            Action::Start { index } | Action::Restart { index } => {
                session.started(index, Ok(()), None, true, number);
            }
            _ => {}
        }
        let mut queue = session.shuffle_queue.clone();
        assert!(session.playing_index.map_or(true, |index| !queue.contains(&index)));
        assert!(session.shuffle || queue.is_empty());
        let length = queue.len();
        queue.sort();
        queue.dedup();
        assert_eq!(queue.len(), length);
    }
}
