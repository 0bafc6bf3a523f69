//! How playback goes on at the end of a track, and how the meter is coloured.
use vstd::prelude::*;

verus! {

/// What happens at the end of a track.
#[derive(Clone, Copy, Debug, PartialEq, Eq, Structural)]
pub enum RepeatMode {
    /// The playlist ends with its last track.
    Off,
    /// The playlist starts over behind its last track.
    All,
    /// The same track starts over.
    One,
}

impl RepeatMode {
    /// The mode that the repeat key switches to.
    pub open spec fn successor(self) -> RepeatMode {
        match self {
            RepeatMode::Off => RepeatMode::All,
            RepeatMode::All => RepeatMode::One,
            RepeatMode::One => RepeatMode::Off,
        }
    }

    /// The name of the mode.
    pub open spec fn title(self) -> Seq<char> {
        match self {
            RepeatMode::Off => "Off"@,
            RepeatMode::All => "All"@,
            RepeatMode::One => "One"@,
        }
    }

    /// The mode that the repeat key switches to.
    pub fn next(self) -> (mode: Self)
        ensures
            mode == self.successor(),
    {
        match self {
            RepeatMode::Off => RepeatMode::All,
            RepeatMode::All => RepeatMode::One,
            RepeatMode::One => RepeatMode::Off,
        }
    }

    /// The name of the mode.
    pub fn name(self) -> (name: &'static str)
        ensures
            name@ == self.title(),
    {
        match self {
            RepeatMode::Off => "Off",
            RepeatMode::All => "All",
            RepeatMode::One => "One",
        }
    }
}

/// The colours of the meter.
#[derive(Clone, Copy, Debug, PartialEq, Eq, Structural)]
pub enum VisualizerTheme {
    Cyberpunk,
    Sunset,
    Aurora,
    Classic,
}

impl VisualizerTheme {
    /// The theme that the theme key switches to.
    pub open spec fn successor(self) -> VisualizerTheme {
        match self {
            VisualizerTheme::Cyberpunk => VisualizerTheme::Sunset,
            VisualizerTheme::Sunset => VisualizerTheme::Aurora,
            VisualizerTheme::Aurora => VisualizerTheme::Classic,
            VisualizerTheme::Classic => VisualizerTheme::Cyberpunk,
        }
    }

    /// The name of the theme.
    pub open spec fn title(self) -> Seq<char> {
        match self {
            VisualizerTheme::Cyberpunk => "Cyberpunk Neon"@,
            VisualizerTheme::Sunset => "Golden Sunset"@,
            VisualizerTheme::Aurora => "Northern Aurora"@,
            VisualizerTheme::Classic => "Classic Vintage"@,
        }
    }

    /// The theme that the theme key switches to.
    pub fn next(self) -> (theme: Self)
        ensures
            theme == self.successor(),
    {
        match self {
            VisualizerTheme::Cyberpunk => VisualizerTheme::Sunset,
            VisualizerTheme::Sunset => VisualizerTheme::Aurora,
            VisualizerTheme::Aurora => VisualizerTheme::Classic,
            VisualizerTheme::Classic => VisualizerTheme::Cyberpunk,
        }
    }

    /// The name of the theme.
    pub fn name(self) -> (name: &'static str)
        ensures
            name@ == self.title(),
    {
        match self {
            VisualizerTheme::Cyberpunk => "Cyberpunk Neon",
            VisualizerTheme::Sunset => "Golden Sunset",
            VisualizerTheme::Aurora => "Northern Aurora",
            VisualizerTheme::Classic => "Classic Vintage",
        }
    }
}

/// Three presses of the repeat key lead back to the same mode, and no fewer do.
pub proof fn repeat_modes_cycle(mode: RepeatMode)
    ensures
        mode.successor().successor().successor() == mode,
        mode.successor() != mode,
        mode.successor().successor() != mode,
{
}

/// Four presses of the theme key lead back to the same theme, and no fewer do.
pub proof fn themes_cycle(theme: VisualizerTheme)
    ensures
        theme.successor().successor().successor().successor() == theme,
        theme.successor() != theme,
        theme.successor().successor() != theme,
        theme.successor().successor().successor() != theme,
{
}

} // verus!
