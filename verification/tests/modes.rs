//! Repeat modes and themes.
use music_player::mode::{RepeatMode, VisualizerTheme};

#[test]
fn repeat_modes_follow_one_another() {
    assert_eq!(RepeatMode::Off.next(), RepeatMode::All);
    assert_eq!(RepeatMode::All.next(), RepeatMode::One);
    assert_eq!(RepeatMode::One.next(), RepeatMode::Off);
}

#[test]
fn repeat_modes_are_named() {
    for mode in [RepeatMode::Off, RepeatMode::All, RepeatMode::One] {
        assert_eq!(mode.name(), format!("{:?}", mode));
        assert_eq!(mode.next().next().next(), mode);
    }
}

#[test]
fn themes_follow_one_another() {
    assert_eq!(VisualizerTheme::Cyberpunk.next(), VisualizerTheme::Sunset);
    assert_eq!(VisualizerTheme::Sunset.next(), VisualizerTheme::Aurora);
    assert_eq!(VisualizerTheme::Aurora.next(), VisualizerTheme::Classic);
    assert_eq!(VisualizerTheme::Classic.next(), VisualizerTheme::Cyberpunk);
}

#[test]
fn themes_are_named() {
    assert_eq!(VisualizerTheme::Cyberpunk.name(), "Cyberpunk Neon");
    assert_eq!(VisualizerTheme::Sunset.name(), "Golden Sunset");
    assert_eq!(VisualizerTheme::Aurora.name(), "Northern Aurora");
    assert_eq!(VisualizerTheme::Classic.name(), "Classic Vintage");
}
