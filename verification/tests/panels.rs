//! The panels of the screen.
use music_player::mode::{RepeatMode, VisualizerTheme};
use music_player::panels::{
    playlist_title, playlist_visible_rows, progress_columns, terminal_width, write_header,
    write_panel_bottom, write_panel_line, write_panel_text, write_panel_top, write_playback_panel,
    write_playlist_panel, write_spectrum_panel, write_visualizer, MeterColumn, VolumeGauge,
};
use music_player::style::{Color, Frame, Piece};
use music_player::text::display_width;
use music_player::time::PlayTime;
use music_player::track::{TrackFile, TrackMetadata, TrackVisual};

/// The texts of a frame without their colours.
fn plain(frame: &Frame) -> String {
    let mut text = String::new();
    for piece in &frame.pieces {
        if let Piece::Text(content) = piece {
            text.push_str(content);
        }
    }
    text
}

/// The rows of a frame without their colours.
fn rows(frame: &Frame) -> Vec<String> {
    let text = plain(frame);
    assert!(text.ends_with("\r\n"));
    text.trim_end_matches("\r\n").split("\r\n").map(String::from).collect()
}

fn file(name: &str) -> TrackFile {
    TrackFile { file_name: Some(String::from(name)), extension: None }
}

fn text(content: &str) -> Piece {
    Piece::Text(String::from(content))
}

fn gauge(percent: &str, filled: usize, boost: usize) -> VolumeGauge {
    VolumeGauge { percent: String::from(percent), filled, boost }
}

struct Playback<'a> {
    playing: Option<usize>,
    visual: Option<&'a TrackVisual>,
    metadata: Option<&'a TrackMetadata>,
    is_paused: bool,
    gauge: VolumeGauge,
    filled: usize,
    is_loading: bool,
    mode: RepeatMode,
    shuffle: bool,
    width: usize,
}

fn idle<'a>() -> Playback<'a> {
    Playback {
        playing: None,
        visual: None,
        metadata: None,
        is_paused: false,
        gauge: gauge("100%", 5, 0),
        filled: 0,
        is_loading: false,
        mode: RepeatMode::Off,
        shuffle: false,
        width: 60,
    }
}

fn playback(shown: &Playback) -> Frame {
    let mut frame = Frame::new();
    write_playback_panel(
        &mut frame,
        &[file("one.mp3"), file("two.mp3")],
        shown.playing,
        "A status.",
        PlayTime { secs: 65, nanos: 0 },
        shown.visual,
        shown.metadata,
        shown.is_paused,
        &shown.gauge,
        shown.filled,
        shown.is_loading,
        shown.mode,
        shown.shuffle,
        VisualizerTheme::Aurora,
        shown.width,
    );
    frame
}

fn playlist(names: &[&str], listed: &[usize], current: usize, playing: Option<usize>) -> Frame {
    let files = names.iter().map(|name| file(name)).collect::<Vec<_>>();
    let mut frame = Frame::new();
    write_playlist_panel(&mut frame, &files, listed, current, playing, "", false, 3, 30);
    frame
}

#[test]
fn the_screen_keeps_within_the_terminal() {
    assert_eq!(terminal_width(None), 80);
    assert_eq!(terminal_width(Some(0)), 60);
    assert_eq!(terminal_width(Some(61)), 60);
    assert_eq!(terminal_width(Some(62)), 61);
    assert_eq!(terminal_width(Some(120)), 119);
    assert_eq!(terminal_width(Some(121)), 120);
    assert_eq!(terminal_width(Some(u16::MAX)), 120);
}

#[test]
fn the_playlist_keeps_within_the_terminal() {
    assert_eq!(playlist_visible_rows(None), 8);
    assert_eq!(playlist_visible_rows(Some(0)), 3);
    assert_eq!(playlist_visible_rows(Some(27)), 3);
    assert_eq!(playlist_visible_rows(Some(28)), 4);
    assert_eq!(playlist_visible_rows(Some(32)), 8);
    assert_eq!(playlist_visible_rows(Some(50)), 8);
}

#[test]
fn the_header_names_the_keys() {
    let mut frame = Frame::new();
    write_header(&mut frame, 80);
    assert_eq!(
        frame.pieces,
        vec![
            Piece::Foreground(Color::DarkGrey),
            text("┌"),
            Piece::Foreground(Color::Green),
            text(" music_player "),
            Piece::Foreground(Color::DarkGrey),
            text("────"),
            Piece::Foreground(Color::White),
            text(" / search  r repeat  s shuffle  t theme  Enter play  q quit "),
            Piece::Foreground(Color::DarkGrey),
            text("┐\r\n"),
            Piece::Reset,
        ]
    );
    let mut narrow = Frame::new();
    write_header(&mut narrow, 60);
    assert_eq!(display_width(&rows(&narrow)[0]), 76);
}

#[test]
fn panels_have_edges() {
    let mut frame = Frame::new();
    write_panel_top(&mut frame, "title", 12, Color::Red);
    write_panel_bottom(&mut frame, 12);
    assert_eq!(rows(&frame), vec!["┌ title ───┐", "└──────────┘"]);
    assert_eq!(frame.pieces[2], Piece::Foreground(Color::Red));
    let mut cut = Frame::new();
    write_panel_top(&mut cut, "a long title", 12, Color::Red);
    assert_eq!(plain(&cut), "┌ a long ~ ┐\r\n");
    let mut tiny = Frame::new();
    write_panel_top(&mut tiny, "title", 0, Color::Red);
    write_panel_bottom(&mut tiny, 0);
    assert_eq!(plain(&tiny), "┌  ┐\r\n└┘\r\n");
}

#[test]
fn rows_hold_labelled_values() {
    let mut frame = Frame::new();
    write_panel_text(&mut frame, 16, "info", "ok", Color::Cyan);
    write_panel_text(&mut frame, 16, "", "ok", Color::Cyan);
    write_panel_text(&mut frame, 16, "info", "too long a text", Color::Cyan);
    assert_eq!(rows(&frame), vec!["│ info: ok     │", "│ ok           │", "│ info: too l~ │"]);
    assert_eq!(
        frame.pieces[..7],
        [
            Piece::Foreground(Color::DarkGrey),
            text("│ "),
            Piece::Foreground(Color::Cyan),
            text("info: ok"),
            Piece::Foreground(Color::DarkGrey),
            text("     │\r\n"),
            Piece::Reset,
        ]
    );
}

#[test]
fn rows_hold_coloured_parts() {
    let mut frame = Frame::new();
    write_panel_line(&mut frame, 12, &[("a", Color::Red), ("🔁", Color::White)]);
    assert_eq!(
        frame.pieces,
        vec![
            Piece::Foreground(Color::DarkGrey),
            text("│ "),
            Piece::Foreground(Color::Red),
            text("a"),
            Piece::Foreground(Color::White),
            text("🔁"),
            Piece::Foreground(Color::DarkGrey),
            text("      │\r\n"),
            Piece::Reset,
        ]
    );
    let mut full = Frame::new();
    write_panel_line(&mut full, 3, &[("abcdef", Color::Red)]);
    assert_eq!(plain(&full), "│ abcdef│\r\n");
}

#[test]
fn nothing_plays() {
    let shown = rows(&playback(&idle()));
    assert_eq!(
        shown,
        vec![
            "┌ playback ────────────────────────────────────────────────┐",
            "│ state ■ IDLE  volume 100% [▮▮▮▮▮]  theme Northern Aurora │",
            "│ repeat → OFF  shuffle → OFF                              │",
            "│ track: none                                              │",
            "│ info: A status.                                          │",
            "│ time: ━──────────────────────────────────── 01:05 / --:--│",
            "└──────────────────────────────────────────────────────────┘",
        ]
    );
}

#[test]
fn a_track_plays() {
    let visual = TrackVisual {
        duration: Some(PlayTime { secs: 130, nanos: 0 }),
        spectra: Vec::new(),
    };
    let columns = progress_columns(PlayTime { secs: 65, nanos: 0 }, visual.duration, 60);
    assert_eq!(columns, 36);
    let shown = Playback {
        playing: Some(1),
        visual: Some(&visual),
        gauge: gauge("135%", 5, 2),
        filled: 18,
        is_loading: true,
        mode: RepeatMode::All,
        shuffle: true,
        width: 60,
        ..idle()
    };
    let frame = playback(&shown);
    assert_eq!(
        rows(&frame)[1..6],
        [
            "│ state ▶ PLAYING  volume 135% [▮▮▮▮▮▮▮]  theme Northern Aurora│",
            "│ repeat 🔁 ALL  shuffle 🔀 ON                             │",
            "│ track: two.mp3                                           │",
            "│ info: A status.                                          │",
            "│ time: ━━━━━━━━━━━━━━━━━●━━━━━━━━━━━━━━━━━━ 01:05 / 02:10│",
        ]
    );
    assert!(frame.pieces.contains(&Piece::Foreground(Color::Rgb { r: 0, g: 245, b: 212 })));
}

#[test]
fn playback_is_paused() {
    let shown = Playback {
        playing: Some(0),
        is_paused: true,
        gauge: gauge("40%", 2, 0),
        mode: RepeatMode::One,
        ..idle()
    };
    let frame = playback(&shown);
    let lines = rows(&frame);
    assert_eq!(lines[1], "│ state ⏸ PAUSED  volume 40% [▮▮░░░]  theme Northern Aurora│");
    assert!(lines[2].starts_with("│ repeat 🔂 ONE  shuffle → OFF "));
    let state = frame.pieces.iter().position(|piece| *piece == text("⏸ PAUSED")).unwrap();
    assert_eq!(frame.pieces[state - 1], Piece::Foreground(Color::Yellow));
}

#[test]
fn tags_say_what_plays() {
    let tags = TrackMetadata {
        title: Some(String::from("A Title")),
        artist: Some(String::from("An Artist")),
        album: Some(String::from("An Album")),
    };
    let lines = rows(&playback(&Playback { playing: Some(0), metadata: Some(&tags), ..idle() }));
    assert!(lines[3].starts_with("│ title: A Title "));
    assert!(lines[4].starts_with("│ artist: An Artist "));
    assert!(lines[5].starts_with("│ album: An Album "));
    assert_eq!(lines.len(), 9);
    let untitled = TrackMetadata { title: None, artist: None, album: None };
    let shown = Playback { playing: Some(0), metadata: Some(&untitled), ..idle() };
    let lines = rows(&playback(&shown));
    assert!(lines[3].starts_with("│ title: one.mp3 "));
    assert_eq!(lines.len(), 7);
    let lines = rows(&playback(&Playback { metadata: Some(&tags), ..idle() }));
    assert!(lines[3].starts_with("│ track: none "));
}

#[test]
fn tags_and_pause_do_not_show_while_nothing_plays() {
    let tags = TrackMetadata { title: None, artist: Some(String::from("x")), album: None };
    let plain_panel = playback(&idle());
    let other = playback(&Playback { metadata: Some(&tags), is_paused: true, ..idle() });
    assert_eq!(plain_panel.pieces, other.pieces);
    let shown = Playback { playing: Some(0), metadata: Some(&tags), ..idle() };
    assert_eq!(rows(&playback(&shown)).len(), 8);
}

#[test]
fn tracks_that_are_not_shown_need_not_exist() {
    let lines = rows(&playlist(&["a", "b", "c"], &[0, 1, 2, 77, 99], 1, None));
    assert_eq!(lines.len(), 5);
    let lines = rows(&playlist(&["a", "b", "c"], &[88, 0, 1, 2], 2, None));
    assert_eq!(lines[1..4], ["│   a                        │", "│   b                        │", "│ ▶ c                        │"]);
}

#[test]
fn a_narrow_panel_has_no_progress_bar() {
    let narrow = rows(&playback(&Playback { width: 28, filled: 2, ..idle() }));
    assert_eq!(narrow[5], "│ time:  01:05 / --:--│");
    let wide = rows(&playback(&Playback { width: 29, filled: 2, ..idle() }));
    assert_eq!(wide[5], "│ time: ━●─── 01:05 / --:--│");
}

#[test]
fn the_meter_shows_bars_and_peaks() {
    let bars = [
        MeterColumn { level: 8, peak_row: 2, stands_out: true },
        MeterColumn { level: 11, peak_row: 2, stands_out: false },
        MeterColumn { level: 0, peak_row: 9, stands_out: true },
    ];
    let mut frame = Frame::new();
    let colors = [Color::Red, Color::Yellow];
    write_visualizer(&mut frame, &bars, &colors, false, 9, VisualizerTheme::Sunset);
    assert_eq!(
        frame.pieces,
        vec![
            Piece::Foreground(Color::DarkGrey),
            text("│           │\r\n"),
            Piece::Foreground(Color::DarkGrey),
            text("│ "),
            Piece::Foreground(Color::Yellow),
            Piece::Foreground(Color::Rgb { r: 255, g: 255, b: 255 }),
            text("▀▀"),
            Piece::Foreground(Color::Yellow),
            text(" "),
            text("▒▒"),
            text(" "),
            text("  "),
            Piece::Reset,
            Piece::Foreground(Color::DarkGrey),
            text("  │\r\n"),
            Piece::Foreground(Color::DarkGrey),
            text("│ "),
            Piece::Foreground(Color::Red),
            text("██"),
            text(" "),
            text("██"),
            text(" "),
            text("  "),
            Piece::Reset,
            Piece::Foreground(Color::DarkGrey),
            text("  │\r\n"),
        ]
    );
}

#[test]
fn the_meter_stands_in_the_middle() {
    let bars = [MeterColumn { level: 12, peak_row: 1, stands_out: false }; 19];
    let mut frame = Frame::new();
    let colors = [Color::Red, Color::Green];
    write_spectrum_panel(&mut frame, &bars, &colors, true, 62, VisualizerTheme::Sunset);
    let lines = rows(&frame);
    assert_eq!(lines.len(), 5);
    assert!(lines[0].starts_with("┌ spectrum ─"));
    for line in &lines {
        assert_eq!(display_width(line), 62);
    }
    assert!(lines[2].starts_with("│  ▒▒ ▒▒ "));
    assert!(lines[2].ends_with(" ▒▒ ▒▒  │"));
    assert!(lines[3].starts_with("│  ██ ██ "));
}

#[test]
fn the_playlist_has_a_title() {
    assert_eq!(playlist_title("", false, 9), "playlist");
    assert_eq!(playlist_title("", true, 9), "playlist /_ (9)");
    assert_eq!(playlist_title("abc", true, 0), "playlist /abc_ (0)");
    assert_eq!(playlist_title("abc", false, 12), "playlist /abc (12)");
}

#[test]
fn the_playlist_marks_tracks() {
    let frame = playlist(&["a.mp3", "b.mp3", "c.mp3"], &[0, 1, 2], 0, Some(1));
    assert_eq!(
        rows(&frame),
        vec![
            "┌ playlist ──────────────────┐",
            "│ ▶ a.mp3                    │",
            "│   b.mp3 [PLAYING]          │",
            "│   c.mp3                    │",
            "└────────────────────────────┘",
        ]
    );
    let back = frame.pieces.iter().position(|piece| matches!(piece, Piece::Background { .. }));
    assert_eq!(frame.pieces[back.unwrap()], Piece::Background { r: 40, g: 44, b: 52 });
    let both = playlist(&["a.mp3"], &[0], 0, Some(0));
    assert_eq!(rows(&both)[1], "│ ▶ a.mp3 [PLAYING]          │");
}

#[test]
fn long_names_are_cut_in_the_playlist() {
    let name = "a name that is much too long.mp3";
    let lines = rows(&playlist(&[name, name, name], &[0, 1, 2], 1, Some(2)));
    assert_eq!(lines[1], "│   a name that is much too~ │");
    assert_eq!(lines[2], "│ ▶ a name that is much too~ │");
    assert_eq!(lines[3], "│   a name that i~ [PLAYING] │");
}

#[test]
fn the_playlist_shows_the_selected_track() {
    let names = ["0", "1", "2", "3", "4", "5"];
    let shown = |current| {
        rows(&playlist(&names, &[5, 4, 3, 2, 1, 0], current, None))[1..4]
            .iter()
            .map(|line| line.chars().filter(|c| c.is_ascii_digit()).collect::<String>())
            .collect::<Vec<_>>()
    };
    assert_eq!(shown(5), vec!["5", "4", "3"]);
    assert_eq!(shown(3), vec!["5", "4", "3"]);
    assert_eq!(shown(2), vec!["4", "3", "2"]);
    assert_eq!(shown(0), vec!["2", "1", "0"]);
    assert_eq!(shown(9), vec!["5", "4", "3"]);
}

#[test]
fn an_empty_playlist_says_so() {
    let files = [file("a.mp3")];
    let mut frame = Frame::new();
    write_playlist_panel(&mut frame, &files, &[], 0, None, "xyz", true, 3, 30);
    assert_eq!(
        rows(&frame),
        vec![
            "┌ playlist /xyz_ (0) ────────┐",
            "│ No matches                 │",
            "└────────────────────────────┘",
        ]
    );
}
