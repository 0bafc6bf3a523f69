//! The whole screen.
use crossterm::style::force_color_output;
use music_player::panels::{MeterColumn, VolumeGauge};
use music_player::screen::{compose, draw, Room, Sound};
use music_player::session::{Key, Session};
use music_player::style::{count_lines, encode, join_codes, Color, Frame, RenderState};
use music_player::time::PlayTime;
use music_player::track::TrackFile;

fn session() -> Session {
    let files = ["a.mp3", "b.mp3", "c.mp3"]
        .iter()
        .map(|name| TrackFile {
            file_name: Some(String::from(*name)),
            extension: Some(String::from("mp3")),
        })
        .collect();
    Session::new(files).unwrap()
}

fn silence() -> Sound {
    Sound {
        elapsed: PlayTime { secs: 0, nanos: 0 },
        is_paused: false,
        gauge: VolumeGauge { percent: String::from("100%"), filled: 5, boost: 0 },
        filled_chars: 0,
        columns: vec![MeterColumn { level: 8, peak_row: 1, stands_out: false }; 25],
        row_colors: vec![Color::Green; 10],
    }
}

const ROOM: Room = Room { width: 80, visible_rows: 8 };

#[test]
fn lines_are_counted() {
    assert_eq!(count_lines(""), 0);
    assert_eq!(count_lines("no line"), 0);
    assert_eq!(count_lines("a\r\n\nb"), 2);
}

#[test]
fn a_frame_replaces_the_one_before() {
    let state = RenderState { last_height: 2 };
    let rendering = state.update("a\r\nb\r\n");
    assert_eq!(rendering.output, "\x1b[?2026h\x1b[Ha\r\nb\r\n\x1b[?2026l");
    assert_eq!(rendering.height, 2);
}

#[test]
fn a_lower_frame_clears_what_is_below() {
    let state = RenderState { last_height: 3 };
    let rendering = state.update("a\r\nb\r\n");
    assert_eq!(rendering.output, "\x1b[?2026h\x1b[Ha\r\nb\r\n\x1b[J\x1b[?2026l");
    assert_eq!(rendering.height, 2);
}

#[test]
fn codes_stand_in_the_place_of_their_pieces() {
    let mut frame = Frame::new();
    frame.text("a");
    frame.color(Color::Red);
    frame.text("b");
    frame.background(1, 2, 3);
    frame.reset();
    let codes = ["-", "<red>", "-", "<back>", "<reset>"].map(String::from);
    assert_eq!(join_codes(&frame, &codes), "a<red>b<back><reset>");
    assert_eq!(join_codes(&Frame::new(), &[]), "");
}

#[test]
fn colours_do_not_change_the_height() {
    let mut frame = Frame::new();
    frame.color(Color::Rgb { r: 10, g: 10, b: 10 });
    frame.text("a\n");
    frame.background(10, 13, 10);
    frame.text("b\nc");
    frame.reset();
    let rendering = RenderState { last_height: 0 }.show(&frame);
    assert_eq!(rendering.height, 2);
    assert_eq!(count_lines(&encode(&frame)), 2);
}

#[test]
fn the_screen_holds_all_panels() {
    let session = session();
    let frame = compose(&session, &session.playlist(), &silence(), ROOM);
    force_color_output(true);
    let output = encode(&frame);
    for part in [" music_player ", " playback ", " spectrum ", " playlist ", "a.mp3", "b.mp3", "c.mp3"] {
        assert!(output.contains(part), "{}", part);
    }
    assert!(output.contains("info: Use / to search, j/k to select, Enter to play, Left/Right to seek."));
    assert_eq!(count_lines(&output), 1 + 7 + 13 + 5);
}

#[test]
fn the_screen_is_drawn_in_one_update() {
    let session = session();
    let sound = silence();
    let frame = compose(&session, &session.playlist(), &sound, ROOM);
    force_color_output(true);
    let first = draw(&session, &session.playlist(), &sound, ROOM, &RenderState { last_height: 0 });
    assert_eq!(first.output, format!("\x1b[?2026h\x1b[H{}\x1b[?2026l", encode(&frame)));
    assert_eq!(first.height, 26);
}

#[test]
fn a_search_leaves_fewer_rows() {
    let mut session = session();
    let sound = silence();
    let start = PlayTime { secs: 0, nanos: 0 };
    let first = draw(&session, &session.playlist(), &sound, ROOM, &RenderState { last_height: 0 });
    session.press(Key::Char('/'), start, false, 0);
    session.press(Key::Char('b'), start, false, 0);
    let before = RenderState { last_height: first.height };
    let second = draw(&session, &session.playlist(), &sound, ROOM, &before);
    assert_eq!(second.height, first.height - 2);
    assert!(second.output.ends_with("\x1b[J\x1b[?2026l"));
    assert!(second.output.contains(" playlist /b_ (1) "));
}
