//! The panels of the screen.
//!
//! Each function that writes a panel adds its pieces to a frame; the function named like
//! it without `write_` says which.
use vstd::prelude::*;
use crate::meter::{
    bar_segment, bars_for, columns_of, filled_eighths, get_peak_color, meter_bar_count,
    meter_content_width, peak_color, segment, METER_BAR_GAP, METER_BAR_WIDTH,
};
use crate::mode::{RepeatMode, VisualizerTheme};
use crate::playlist::{find_position, position_of};
use crate::style::{fg, lemma_append, txt, Color, Frame, PieceModel};
use crate::text::{
    decimal, display_width, floor_sub, push_decimal, repeat_char, run, truncate, truncated,
    width_of,
};
use crate::time::{playback_time, progress_text, PlayTime};
use crate::track::{
    display_name, duration_of, known_duration, metadata_of, name_of, visual_of, TrackFile,
    TrackMetadata, TrackVisual,
};

verus! {

/// The fewest rows of the playlist that are shown.
pub const PLAYLIST_MIN_ROWS: usize = 3;

/// The most rows of the playlist that are shown.
pub const PLAYLIST_MAX_ROWS: usize = 8;

/// The number of rows of the terminal that are left to the rest of the screen.
pub const NON_PLAYLIST_ROWS: usize = 24;

/// The number of columns that the screen takes up on a terminal of `columns` columns: one
/// less than those, but at least 60 and at most 120, and 80 where they are not known.
pub open spec fn width_for(columns: Option<u16>) -> int {
    match columns {
        Some(columns) => if columns <= 61 {
            60
        } else if columns >= 121 {
            120
        } else {
            columns - 1
        },
        None => 80,
    }
}

/// The number of columns that the screen takes up on a terminal of `columns` columns.
pub fn terminal_width(columns: Option<u16>) -> (width: usize)
    ensures
        width == width_for(columns),
        width == (match columns {
            Some(columns) => if columns <= 61 {
                60
            } else if columns >= 121 {
                120
            } else {
                columns - 1
            },
            None => 80,
        }),
{
    match columns {
        Some(columns) => {
            let free: usize = (columns as usize).saturating_sub(1);
            if free < 60 {
                60
            } else if free > 120 {
                120
            } else {
                free
            }
        },
        None => 80,
    }
}

/// The number of rows of the playlist that are shown on a terminal of `rows` rows: those
/// that the rest of the screen leaves, within bounds, and the most where they are not known.
pub open spec fn rows_for(rows: Option<u16>) -> int {
    match rows {
        Some(rows) => if rows < NON_PLAYLIST_ROWS + PLAYLIST_MIN_ROWS {
            PLAYLIST_MIN_ROWS as int
        } else if rows > NON_PLAYLIST_ROWS + PLAYLIST_MAX_ROWS {
            PLAYLIST_MAX_ROWS as int
        } else {
            rows - NON_PLAYLIST_ROWS
        },
        None => PLAYLIST_MAX_ROWS as int,
    }
}

/// The number of rows of the playlist that are shown on a terminal of `rows` rows.
pub fn playlist_visible_rows(rows: Option<u16>) -> (visible: usize)
    ensures
        visible == rows_for(rows),
        visible == (match rows {
            Some(rows) => if rows < NON_PLAYLIST_ROWS + PLAYLIST_MIN_ROWS {
                PLAYLIST_MIN_ROWS as int
            } else if rows > NON_PLAYLIST_ROWS + PLAYLIST_MAX_ROWS {
                PLAYLIST_MAX_ROWS as int
            } else {
                rows - NON_PLAYLIST_ROWS
            },
            None => PLAYLIST_MAX_ROWS as int,
        }),
{
    match rows {
        Some(rows) => {
            let free: usize = (rows as usize).saturating_sub(NON_PLAYLIST_ROWS);
            if free < PLAYLIST_MIN_ROWS {
                PLAYLIST_MIN_ROWS
            } else if free > PLAYLIST_MAX_ROWS {
                PLAYLIST_MAX_ROWS
            } else {
                free
            }
        },
        None => PLAYLIST_MAX_ROWS,
    }
}

/// The row at the top of the screen: the name of the program, and its keys.
pub open spec fn header(width: nat) -> Seq<PieceModel> {
    let title = " music_player "@;
    let controls = " / search  r repeat  s shuffle  t theme  Enter play  q quit "@;
    seq![
        fg(Color::DarkGrey),
        txt("┌"@),
        fg(Color::Green),
        txt(title),
        fg(Color::DarkGrey),
        txt(run('─', floor_sub(width, 2 + title.len() + controls.len()))),
        fg(Color::White),
        txt(controls),
        fg(Color::DarkGrey),
        txt("┐\r\n"@),
        PieceModel::Reset,
    ]
}

/// Adds the row at the top of the screen.
pub fn write_header(out: &mut Frame, width: usize)
    ensures
        final(out)@ == old(out)@ + header(width as nat),
{
    let title = " music_player ";
    let controls = " / search  r repeat  s shuffle  t theme  Enter play  q quit ";
    let taken: usize = title.unicode_len().saturating_add(controls.unicode_len()).saturating_add(2);
    let fill: usize = width.saturating_sub(taken);
    out.color(Color::DarkGrey);
    out.text("┌");
    out.color(Color::Green);
    out.text(title);
    out.color(Color::DarkGrey);
    out.text(repeat_char('─', fill).as_str());
    out.color(Color::White);
    out.text(controls);
    out.color(Color::DarkGrey);
    out.text("┐\r\n");
    out.reset();
    assert(out@ =~= old(out)@ + header(width as nat));
}

/// The upper edge of a panel, with its title.
pub open spec fn panel_top(title: Seq<char>, width: nat, color: Color) -> Seq<PieceModel> {
    let shown = truncated(title, floor_sub(width, 4));
    seq![
        fg(Color::DarkGrey),
        txt("┌"@),
        fg(color),
        txt(" "@ + shown + " "@),
        fg(Color::DarkGrey),
        txt(run('─', floor_sub(width, shown.len() + 4))),
        txt("┐\r\n"@),
        PieceModel::Reset,
    ]
}

/// Adds the upper edge of a panel.
pub fn write_panel_top(out: &mut Frame, title: &str, width: usize, color: Color)
    ensures
        final(out)@ == old(out)@ + panel_top(title@, width as nat, color),
{
    let shown = truncate(title, width.saturating_sub(4));
    let len: usize = shown.as_str().unicode_len();
    let mut caption = " ".to_owned();
    caption.append(shown.as_str());
    caption.append(" ");
    out.color(Color::DarkGrey);
    out.text("┌");
    out.color(color);
    out.text(caption.as_str());
    out.color(Color::DarkGrey);
    out.text(repeat_char('─', width.saturating_sub(len.saturating_add(4))).as_str());
    out.text("┐\r\n");
    out.reset();
    assert(out@ =~= old(out)@ + panel_top(title@, width as nat, color));
}

/// The lower edge of a panel.
pub open spec fn panel_bottom(width: nat) -> Seq<PieceModel> {
    seq![
        fg(Color::DarkGrey),
        txt("└"@ + run('─', floor_sub(width, 2)) + "┘\r\n"@),
        PieceModel::Reset,
    ]
}

/// Adds the lower edge of a panel.
pub fn write_panel_bottom(out: &mut Frame, width: usize)
    ensures
        final(out)@ == old(out)@ + panel_bottom(width as nat),
{
    let mut edge = "└".to_owned();
    edge.append(repeat_char('─', width.saturating_sub(2)).as_str());
    edge.append("┘\r\n");
    out.color(Color::DarkGrey);
    out.text(edge.as_str());
    out.reset();
    assert(out@ =~= old(out)@ + panel_bottom(width as nat));
}

/// The spaces that fill a row up to the edge of its panel, and the edge.
pub open spec fn row_end(width: nat, used: nat) -> Seq<char> {
    run(' ', floor_sub(width, used)) + "│\r\n"@
}

/// The spaces that fill a row up to the edge of its panel, and the edge.
fn end_row(width: usize, used: usize) -> (text: String)
    ensures
        text@ == row_end(width as nat, used as nat),
{
    let mut text = repeat_char(' ', width.saturating_sub(used));
    text.append("│\r\n");
    text
}

/// A value with its label, where it has one.
pub open spec fn labelled(label: Seq<char>, value: Seq<char>) -> Seq<char> {
    if label.len() == 0 {
        value
    } else {
        label + ": "@ + value
    }
}

/// A row of a panel that holds one value.
pub open spec fn panel_text(
    width: nat,
    label: Seq<char>,
    value: Seq<char>,
    color: Color,
) -> Seq<PieceModel> {
    let shown = truncated(labelled(label, value), floor_sub(width, 4));
    seq![
        fg(Color::DarkGrey),
        txt("│ "@),
        fg(color),
        txt(shown),
        fg(Color::DarkGrey),
        txt(row_end(width, width_of(shown) + 3)),
        PieceModel::Reset,
    ]
}

/// Adds a row of a panel that holds one value.
pub fn write_panel_text(out: &mut Frame, width: usize, label: &str, value: &str, color: Color)
    ensures
        final(out)@ == old(out)@ + panel_text(width as nat, label@, value@, color),
{
    let mut text = String::new();
    if label.unicode_len() > 0 {
        text.append(label);
        text.append(": ");
    }
    text.append(value);
    assert(text@ =~= labelled(label@, value@));
    let shown = truncate(text.as_str(), width.saturating_sub(4));
    let columns: usize = display_width(shown.as_str());
    out.color(Color::DarkGrey);
    out.text("│ ");
    out.color(color);
    out.text(shown.as_str());
    out.color(Color::DarkGrey);
    let end = end_row(width, columns.saturating_add(3));
    proof {
        if columns + 3 > usize::MAX {
            assert(floor_sub(width as nat, usize::MAX as nat) == 0);
            assert(floor_sub(width as nat, (columns + 3) as nat) == 0);
        }
    }
    out.text(end.as_str());
    out.reset();
    assert(out@ =~= old(out)@ + panel_text(width as nat, label@, value@, color));
}

/// Coloured parts of a row: each text with its colour.
pub type Parts = Seq<(Seq<char>, Color)>;

/// The pieces of the coloured parts of a row.
pub open spec fn part_pieces(parts: Parts) -> Seq<PieceModel>
    decreases parts.len(),
{
    if parts.len() == 0 {
        Seq::empty()
    } else {
        part_pieces(parts.drop_last()) + seq![fg(parts.last().1), txt(parts.last().0)]
    }
}

/// The number of columns of the coloured parts of a row.
pub open spec fn part_columns(parts: Parts) -> nat
    decreases parts.len(),
{
    if parts.len() == 0 {
        0
    } else {
        part_columns(parts.drop_last()) + width_of(parts.last().0)
    }
}

/// A row of a panel that holds coloured parts.
pub open spec fn panel_line(width: nat, parts: Parts) -> Seq<PieceModel> {
    seq![fg(Color::DarkGrey), txt("│ "@)] + part_pieces(parts) + seq![
        fg(Color::DarkGrey),
        txt(row_end(width, part_columns(parts) + 3)),
        PieceModel::Reset,
    ]
}

/// The coloured parts of a row as characters.
pub open spec fn parts_of(parts: Seq<(&str, Color)>) -> Parts {
    parts.map_values(|part: (&str, Color)| (part.0@, part.1))
}

/// Adds a row of a panel that holds coloured parts.
pub fn write_panel_line(out: &mut Frame, width: usize, parts: &[(&str, Color)])
    ensures
        final(out)@ == old(out)@ + panel_line(width as nat, parts_of(parts@)),
{
    let ghost all = parts_of(parts@);
    let ghost before = out@ + seq![fg(Color::DarkGrey), txt("│ "@)];
    let mut columns: usize = 0;
    out.color(Color::DarkGrey);
    out.text("│ ");
    assert(out@ =~= before + part_pieces(all.take(0)));
    for i in 0..parts.len()
        invariant
            all == parts_of(parts@),
            out@ == before + part_pieces(all.take(i as int)),
            columns == part_columns(all.take(i as int)) || (columns == usize::MAX && part_columns(
                all.take(i as int),
            ) >= usize::MAX),
    {
        let (text, color) = parts[i];
        out.color(color);
        out.text(text);
        columns = columns.saturating_add(display_width(text));
        proof {
            let next = all.take(i + 1);
            assert(next.drop_last() =~= all.take(i as int));
            assert(next.last() == (text@, color));
            assert(out@ =~= before + part_pieces(next));
        }
    }
    assert(all.take(all.len() as int) =~= all);
    out.color(Color::DarkGrey);
    let end = end_row(width, columns.saturating_add(3));
    proof {
        if part_columns(all) + 3 > usize::MAX {
            assert(floor_sub(width as nat, usize::MAX as nat) == 0);
            assert(floor_sub(width as nat, part_columns(all) + 3) == 0);
        }
    }
    out.text(end.as_str());
    out.reset();
    assert(out@ =~= old(out)@ + panel_line(width as nat, all));
}

/// How the volume is shown: as a number, as filled cells of five, and as further cells
/// for what is above the normal volume.
pub struct VolumeGauge {
    pub percent: String,
    pub filled: usize,
    pub boost: usize,
}

impl VolumeGauge {
    /// Whether no more cells are filled than there are.
    pub open spec fn wf(self) -> bool {
        self.filled <= 5
    }
}

/// The state of playback in words, and its colour.
pub open spec fn state_part(playing: bool, is_paused: bool) -> (Seq<char>, Color) {
    if !playing {
        ("■ IDLE"@, Color::DarkGrey)
    } else if is_paused {
        ("⏸ PAUSED"@, Color::Yellow)
    } else {
        ("▶ PLAYING"@, Color::Green)
    }
}

/// The repeat mode in words, and its colour.
pub open spec fn repeat_part(mode: RepeatMode) -> (Seq<char>, Color) {
    match mode {
        RepeatMode::Off => ("→ OFF"@, Color::DarkGrey),
        RepeatMode::All => ("🔁 ALL"@, Color::Cyan),
        RepeatMode::One => ("🔂 ONE"@, Color::Cyan),
    }
}

/// Shuffled play in words, and its colour.
pub open spec fn shuffle_part(shuffle: bool) -> (Seq<char>, Color) {
    if shuffle {
        ("🔀 ON"@, Color::Cyan)
    } else {
        ("→ OFF"@, Color::DarkGrey)
    }
}

/// The parts of the row that shows state, volume and theme.
pub open spec fn status_parts(
    playing: bool,
    is_paused: bool,
    gauge: VolumeGauge,
    theme: VisualizerTheme,
) -> Parts {
    seq![
        ("state"@, Color::Green),
        (" "@, Color::DarkGrey),
        state_part(playing, is_paused),
        ("  volume"@, Color::Green),
        (" "@, Color::DarkGrey),
        (gauge.percent@, Color::White),
        (" ["@, Color::DarkGrey),
        (run('▮', gauge.filled as nat), Color::Cyan),
        (run('░', (5 - gauge.filled) as nat), Color::DarkGrey),
        (run('▮', gauge.boost as nat), Color::Red),
        ("]"@, Color::DarkGrey),
        ("  theme"@, Color::Green),
        (" "@, Color::DarkGrey),
        (theme.title(), Color::White),
    ]
}

/// The parts of the row that shows how playback goes on.
pub open spec fn mode_parts(mode: RepeatMode, shuffle: bool) -> Parts {
    seq![
        ("repeat"@, Color::Green),
        (" "@, Color::DarkGrey),
        repeat_part(mode),
        ("  shuffle"@, Color::Green),
        (" "@, Color::DarkGrey),
        shuffle_part(shuffle),
    ]
}

/// The row for a value that may be missing.
pub open spec fn optional_row(
    width: nat,
    label: Seq<char>,
    value: Option<String>,
    color: Color,
) -> Seq<PieceModel> {
    match value {
        Some(value) => panel_text(width, label, value@, color),
        None => Seq::empty(),
    }
}

/// The rows that say what plays: what the tags say of it, or its file.
pub open spec fn track_rows(
    width: nat,
    playing: Option<Seq<char>>,
    metadata: Option<TrackMetadata>,
) -> Seq<PieceModel> {
    match playing {
        None => panel_text(width, "track"@, "none"@, Color::White),
        Some(name) => match metadata {
            None => panel_text(width, "track"@, name, Color::White),
            Some(tags) => panel_text(
                width,
                "title"@,
                (match tags.title {
                    Some(title) => title@,
                    None => name,
                }),
                Color::White,
            ) + optional_row(width, "artist"@, tags.artist, Color::White) + optional_row(
                width,
                "album"@,
                tags.album,
                Color::DarkGrey,
            ),
        },
    }
}

/// The number of columns of the progress bar beside `time`.
pub open spec fn bar_columns(width: nat, time: Seq<char>) -> nat {
    floor_sub(width, 4 + "time: "@.len() + time.len() + 1)
}

/// The progress bar: filled up to a knob, and empty behind it. There is none where it
/// would have no more than four columns.
pub open spec fn progress_bar(available: nat, filled: nat, is_loading: bool) -> Seq<PieceModel> {
    if available > 4 {
        seq![
            fg(Color::Rgb { r: 0, g: 245, b: 212 }),
            txt(run('━', floor_sub(filled, 1))),
            fg(Color::White),
            txt(if filled > 0 {
                "●"@
            } else {
                "━"@
            }),
            fg(Color::DarkGrey),
            txt(
                run(
                    if is_loading {
                        '━'
                    } else {
                        '─'
                    },
                    floor_sub(available, filled),
                ),
            ),
        ]
    } else {
        Seq::empty()
    }
}

/// The row that shows the position in the track.
pub open spec fn time_row(width: nat, time: Seq<char>, filled: nat, is_loading: bool) -> Seq<
    PieceModel,
> {
    let available = bar_columns(width, time);
    seq![fg(Color::DarkGrey), txt("│ "@), fg(Color::Green), txt("time: "@)] + progress_bar(
        available as nat,
        filled,
        is_loading,
    ) + seq![
        fg(Color::White),
        txt(" "@ + time),
        fg(Color::DarkGrey),
        txt(row_end(width, 4 + "time: "@.len() + available + 1 + time.len())),
        PieceModel::Reset,
    ]
}

/// The number of columns of the progress bar for a position in a track; as many of them
/// as are filled go into [`write_playback_panel`].
pub fn progress_columns(elapsed: PlayTime, duration: Option<PlayTime>, width: usize) -> (columns:
    usize)
    ensures
        columns == bar_columns(width as nat, progress_text(elapsed, duration)),
{
    let time = playback_time(elapsed, duration);
    let taken: usize = "time: ".unicode_len().saturating_add(time.as_str().unicode_len()).saturating_add(
        5,
    );
    width.saturating_sub(taken)
}

/// Adds the row that shows the position in the track.
fn write_time_row(out: &mut Frame, width: usize, time: &str, filled: usize, is_loading: bool)
    ensures
        final(out)@ == old(out)@ + time_row(width as nat, time@, filled as nat, is_loading),
{
    let label = "time: ";
    let fixed: usize = label.unicode_len().saturating_add(time.unicode_len()).saturating_add(5);
    let available: usize = width.saturating_sub(fixed);
    assert(available == bar_columns(width as nat, time@));
    out.color(Color::DarkGrey);
    out.text("│ ");
    out.color(Color::Green);
    out.text(label);
    let ghost before = out@;
    if available > 4 {
        out.color(Color::Rgb { r: 0, g: 245, b: 212 });
        out.text(repeat_char('━', filled.saturating_sub(1)).as_str());
        out.color(Color::White);
        if filled > 0 {
            out.text("●");
        } else {
            out.text("━");
        }
        out.color(Color::DarkGrey);
        let empty: char = if is_loading {
            '━'
        } else {
            '─'
        };
        out.text(repeat_char(empty, available.saturating_sub(filled)).as_str());
    }
    assert(out@ =~= before + progress_bar(available as nat, filled as nat, is_loading));
    let mut shown = " ".to_owned();
    shown.append(time);
    out.color(Color::White);
    out.text(shown.as_str());
    out.color(Color::DarkGrey);
    let used: usize = fixed.saturating_add(available);
    let end = end_row(width, used);
    proof {
        let exact = 4 + label@.len() + available + 1 + time@.len();
        if exact > usize::MAX {
            assert(floor_sub(width as nat, used as nat) == 0);
            assert(floor_sub(width as nat, exact as nat) == 0);
        }
    }
    out.text(end.as_str());
    out.reset();
    assert(out@ =~= old(out)@ + time_row(width as nat, time@, filled as nat, is_loading));
}

/// The name of the track that plays.
pub open spec fn playing_name(files: Seq<TrackFile>, playing_index: Option<usize>) -> Option<
    Seq<char>,
> {
    match playing_index {
        Some(index) => Some(name_of(files[index as int])),
        None => None,
    }
}

/// The panel that shows what plays and how.
pub open spec fn playback_panel(
    playing: Option<Seq<char>>,
    status: Seq<char>,
    time: Seq<char>,
    metadata: Option<TrackMetadata>,
    is_paused: bool,
    gauge: VolumeGauge,
    filled: nat,
    is_loading: bool,
    repeat_mode: RepeatMode,
    shuffle: bool,
    theme: VisualizerTheme,
    width: nat,
) -> Seq<PieceModel> {
    panel_top("playback"@, width, Color::Green) + panel_line(
        width,
        status_parts(playing is Some, is_paused, gauge, theme),
    ) + panel_line(width, mode_parts(repeat_mode, shuffle)) + track_rows(width, playing, metadata)
        + panel_text(width, "info"@, status, Color::DarkGrey) + time_row(
        width,
        time,
        filled,
        is_loading,
    ) + panel_bottom(width)
}

/// Adds the rows that say what plays.
fn write_track_rows(
    out: &mut Frame,
    width: usize,
    playing: Option<&str>,
    metadata: Option<&TrackMetadata>,
)
    ensures
        final(out)@ == old(out)@ + track_rows(
            width as nat,
            (match playing {
                Some(name) => Some(name@),
                None => None,
            }),
            metadata_of(metadata),
        ),
{
    match playing {
        None => {
            write_panel_text(out, width, "track", "none", Color::White);
        },
        Some(name) => {
            match metadata {
                None => {
                    write_panel_text(out, width, "track", name, Color::White);
                },
                Some(tags) => {
                    match &tags.title {
                        Some(title) => {
                            write_panel_text(out, width, "title", title.as_str(), Color::White);
                        },
                        None => {
                            write_panel_text(out, width, "title", name, Color::White);
                        },
                    }
                    if let Some(artist) = &tags.artist {
                        write_panel_text(out, width, "artist", artist.as_str(), Color::White);
                    }
                    if let Some(album) = &tags.album {
                        write_panel_text(out, width, "album", album.as_str(), Color::DarkGrey);
                    }
                    assert(out@ =~= old(out)@ + track_rows(
                        width as nat,
                        Some(name@),
                        metadata_of(metadata),
                    ));
                },
            }
        },
    }
}

/// Adds the row that shows state, volume and theme.
fn write_status_row(
    out: &mut Frame,
    width: usize,
    playing: bool,
    is_paused: bool,
    gauge: &VolumeGauge,
    theme: VisualizerTheme,
)
    requires
        gauge.wf(),
    ensures
        final(out)@ == old(out)@ + panel_line(
            width as nat,
            status_parts(playing, is_paused, *gauge, theme),
        ),
{
    let (state, state_color): (&str, Color) = if !playing {
        ("■ IDLE", Color::DarkGrey)
    } else if is_paused {
        ("⏸ PAUSED", Color::Yellow)
    } else {
        ("▶ PLAYING", Color::Green)
    };
    let filled = repeat_char('▮', gauge.filled);
    let empty = repeat_char('░', 5 - gauge.filled);
    let boost = repeat_char('▮', gauge.boost);
    let parts: [(&str, Color); 14] = [
        ("state", Color::Green),
        (" ", Color::DarkGrey),
        (state, state_color),
        ("  volume", Color::Green),
        (" ", Color::DarkGrey),
        (gauge.percent.as_str(), Color::White),
        (" [", Color::DarkGrey),
        (filled.as_str(), Color::Cyan),
        (empty.as_str(), Color::DarkGrey),
        (boost.as_str(), Color::Red),
        ("]", Color::DarkGrey),
        ("  theme", Color::Green),
        (" ", Color::DarkGrey),
        (theme.name(), Color::White),
    ];
    assert(parts_of(parts@) =~= status_parts(playing, is_paused, *gauge, theme));
    write_panel_line(out, width, &parts);
}

/// Adds the row that shows how playback goes on.
fn write_mode_row(out: &mut Frame, width: usize, mode: RepeatMode, shuffle: bool)
    ensures
        final(out)@ == old(out)@ + panel_line(width as nat, mode_parts(mode, shuffle)),
{
    let (repeat, repeat_color): (&str, Color) = match mode {
        RepeatMode::Off => ("→ OFF", Color::DarkGrey),
        RepeatMode::All => ("🔁 ALL", Color::Cyan),
        RepeatMode::One => ("🔂 ONE", Color::Cyan),
    };
    let (order, order_color): (&str, Color) = if shuffle {
        ("🔀 ON", Color::Cyan)
    } else {
        ("→ OFF", Color::DarkGrey)
    };
    let parts: [(&str, Color); 6] = [
        ("repeat", Color::Green),
        (" ", Color::DarkGrey),
        (repeat, repeat_color),
        ("  shuffle", Color::Green),
        (" ", Color::DarkGrey),
        (order, order_color),
    ];
    assert(parts_of(parts@) =~= mode_parts(mode, shuffle));
    write_panel_line(out, width, &parts);
}

/// Adds the panel that shows what plays and how. `filled_chars` is how many of the
/// columns that [`progress_columns`] gives are filled.
pub fn write_playback_panel(
    out: &mut Frame,
    audio_files: &[TrackFile],
    playing_index: Option<usize>,
    status: &str,
    elapsed: PlayTime,
    visual: Option<&TrackVisual>,
    metadata: Option<&TrackMetadata>,
    is_paused: bool,
    gauge: &VolumeGauge,
    filled_chars: usize,
    is_loading: bool,
    repeat_mode: RepeatMode,
    shuffle: bool,
    visualizer_theme: VisualizerTheme,
    width: usize,
)
    requires
        playing_index matches Some(index) ==> index < audio_files@.len(),
        gauge.wf(),
    ensures
        final(out)@ == old(out)@ + playback_panel(
            playing_name(audio_files@, playing_index),
            status@,
            progress_text(elapsed, duration_of(visual_of(visual))),
            metadata_of(metadata),
            is_paused,
            *gauge,
            filled_chars as nat,
            is_loading,
            repeat_mode,
            shuffle,
            visualizer_theme,
            width as nat,
        ),
{
    let ghost start = out@;
    let ghost w = width as nat;
    let ghost name = playing_name(audio_files@, playing_index);
    write_panel_top(out, "playback", width, Color::Green);
    let ghost p1 = panel_top("playback"@, w, Color::Green);
    write_status_row(out, width, playing_index.is_some(), is_paused, gauge, visualizer_theme);
    let ghost x2 = panel_line(
        w,
        status_parts(playing_index is Some, is_paused, *gauge, visualizer_theme),
    );
    let ghost p2 = p1 + x2;
    write_mode_row(out, width, repeat_mode, shuffle);
    let ghost x3 = panel_line(w, mode_parts(repeat_mode, shuffle));
    let ghost p3 = p2 + x3;
    match playing_index {
        Some(index) => {
            let shown = display_name(&audio_files[index]);
            write_track_rows(out, width, Some(shown.as_str()), metadata);
        },
        None => {
            write_track_rows(out, width, None, metadata);
        },
    }
    let ghost x4 = track_rows(w, name, metadata_of(metadata));
    let ghost p4 = p3 + x4;
    write_panel_text(out, width, "info", status, Color::DarkGrey);
    let ghost x5 = panel_text(w, "info"@, status@, Color::DarkGrey);
    let ghost p5 = p4 + x5;
    let time = playback_time(elapsed, known_duration(visual));
    write_time_row(out, width, time.as_str(), filled_chars, is_loading);
    let ghost x6 = time_row(w, time@, filled_chars as nat, is_loading);
    write_panel_bottom(out, width);
    proof {
        lemma_append(start, p1, x2);
        lemma_append(start, p2, x3);
        lemma_append(start, p3, x4);
        lemma_append(start, p4, x5);
        lemma_append(start, p5, x6);
        lemma_append(start, p5 + x6, panel_bottom(w));
    }
}

/// A bar of the meter.
#[derive(Clone, Copy, Debug, PartialEq, Eq, Structural)]
pub struct MeterColumn {
    /// Its height, in eighths of a row.
    pub level: usize,
    /// The row of its peak.
    pub peak_row: usize,
    /// Whether its peak stands out above it.
    pub stands_out: bool,
}

/// Whether the mark at the peak of a bar is shown in row `row`.
pub open spec fn peak_shown(row: int, column: MeterColumn) -> bool {
    column.peak_row == row && column.stands_out
}

/// Whether the mark at the peak of a bar is shown in row `row`.
pub fn should_draw_peak(row: usize, column: &MeterColumn) -> (yes: bool)
    ensures
        yes == peak_shown(row as int, *column),
{
    column.peak_row == row && column.stands_out
}

/// What a bar shows in row `row`: the mark at its peak, or the bar. `color` is the colour
/// of the row.
pub open spec fn cell_pieces(column: MeterColumn, row: int, color: Color, peak: Color) -> Seq<
    PieceModel,
> {
    if peak_shown(row, column) {
        seq![fg(peak), txt(run('▀', METER_BAR_WIDTH as nat)), fg(color)]
    } else {
        seq![txt(run(segment(filled_eighths(row, column.level as int)), METER_BAR_WIDTH as nat))]
    }
}

/// What the first `count` bars show in row `row`, each but the last of the meter followed
/// by a gap.
pub open spec fn cells_pieces(
    bars: Seq<MeterColumn>,
    count: nat,
    row: int,
    color: Color,
    peak: Color,
) -> Seq<PieceModel>
    decreases count,
{
    if count == 0 {
        Seq::empty()
    } else {
        cells_pieces(bars, (count - 1) as nat, row, color, peak) + cell_pieces(
            bars[count - 1],
            row,
            color,
            peak,
        ) + (if count < bars.len() {
            seq![txt(run(' ', METER_BAR_GAP as nat))]
        } else {
            Seq::empty()
        })
    }
}

/// Row `row` of the meter between the edges of its panel.
pub open spec fn meter_row(
    bars: Seq<MeterColumn>,
    row: int,
    color: Color,
    peak: Color,
    left: nat,
    right: nat,
) -> Seq<PieceModel> {
    seq![fg(Color::DarkGrey), txt("│ "@ + run(' ', left)), fg(color)] + cells_pieces(
        bars,
        bars.len(),
        row,
        color,
        peak,
    ) + seq![PieceModel::Reset, fg(Color::DarkGrey), txt(run(' ', right) + " │\r\n"@)]
}

/// The rows of the meter above row `row`, the highest on top. `colors` are the colours of
/// all the rows, the lowest first.
pub open spec fn rows_above(
    bars: Seq<MeterColumn>,
    colors: Seq<Color>,
    row: int,
    peak: Color,
    left: nat,
    right: nat,
) -> Seq<PieceModel>
    decreases colors.len() - row,
{
    if row >= colors.len() {
        Seq::empty()
    } else {
        rows_above(bars, colors, row + 1, peak, left, right) + meter_row(
            bars,
            row + 1,
            colors[row],
            peak,
            left,
            right,
        )
    }
}

/// The number of columns to the left of the meter.
pub open spec fn left_padding(inner_width: nat) -> nat {
    floor_sub(inner_width, columns_of(bars_for(inner_width as int)) as nat) / 2
}

/// The number of columns to the right of the meter.
pub open spec fn right_padding(inner_width: nat) -> nat {
    floor_sub(
        inner_width,
        columns_of(bars_for(inner_width as int)) as nat + left_padding(inner_width),
    )
}

/// The meter, in the middle of its panel, below an empty row.
pub open spec fn visualizer(
    bars: Seq<MeterColumn>,
    colors: Seq<Color>,
    is_paused: bool,
    inner_width: nat,
    theme: VisualizerTheme,
) -> Seq<PieceModel> {
    seq![fg(Color::DarkGrey), txt("│ "@ + run(' ', inner_width) + " │\r\n"@)] + rows_above(
        bars,
        colors,
        0,
        peak_color(theme, is_paused),
        left_padding(inner_width),
        right_padding(inner_width),
    )
}

/// Adds a row of the meter.
fn write_meter_row(
    out: &mut Frame,
    bars: &[MeterColumn],
    row: usize,
    color: Color,
    peak: Color,
    left: usize,
    right: usize,
)
    requires
        1 <= row,
    ensures
        final(out)@ == old(out)@ + meter_row(
            bars@,
            row as int,
            color,
            peak,
            left as nat,
            right as nat,
        ),
{
    let mut start = "│ ".to_owned();
    start.append(repeat_char(' ', left).as_str());
    out.color(Color::DarkGrey);
    out.text(start.as_str());
    out.color(color);
    let ghost before = out@;
    assert(out@ =~= before + cells_pieces(bars@, 0, row as int, color, peak));
    for i in 0..bars.len()
        invariant
            1 <= row,
            out@ == before + cells_pieces(bars@, i as nat, row as int, color, peak),
    {
        if should_draw_peak(row, &bars[i]) {
            out.color(peak);
            out.text(repeat_char('▀', METER_BAR_WIDTH).as_str());
            out.color(color);
        } else {
            let segment: char = bar_segment(row, bars[i].level);
            out.text(repeat_char(segment, METER_BAR_WIDTH).as_str());
        }
        if i + 1 < bars.len() {
            out.text(repeat_char(' ', METER_BAR_GAP).as_str());
        }
        assert(out@ =~= before + cells_pieces(bars@, (i + 1) as nat, row as int, color, peak));
    }
    out.reset();
    out.color(Color::DarkGrey);
    let mut end = repeat_char(' ', right);
    end.append(" │\r\n");
    out.text(end.as_str());
    assert(out@ =~= old(out)@ + meter_row(
        bars@,
        row as int,
        color,
        peak,
        left as nat,
        right as nat,
    ));
}

/// Adds the meter: what `columns` show in as many rows as there are `row_colors`, which are
/// the colours of the rows, the lowest first.
pub fn write_visualizer(
    out: &mut Frame,
    columns: &[MeterColumn],
    row_colors: &[Color],
    is_paused: bool,
    inner_width: usize,
    visualizer_theme: VisualizerTheme,
)
    requires
        inner_width + METER_BAR_GAP <= usize::MAX,
    ensures
        final(out)@ == old(out)@ + visualizer(
            columns@,
            row_colors@,
            is_paused,
            inner_width as nat,
            visualizer_theme,
        ),
{
    let bar_count: usize = meter_bar_count(inner_width);
    let meter_width: usize = meter_content_width(bar_count);
    let left: usize = inner_width.saturating_sub(meter_width) / 2;
    let right: usize = inner_width.saturating_sub(meter_width + left);
    let peak: Color = get_peak_color(visualizer_theme, is_paused);
    let mut empty = "│ ".to_owned();
    empty.append(repeat_char(' ', inner_width).as_str());
    empty.append(" │\r\n");
    out.color(Color::DarkGrey);
    out.text(empty.as_str());
    let ghost before = out@;
    let mut row: usize = row_colors.len();
    assert(out@ =~= before + rows_above(
        columns@,
        row_colors@,
        row as int,
        peak,
        left as nat,
        right as nat,
    ));
    while row > 0
        invariant
            row <= row_colors@.len(),
            out@ == before + rows_above(
                columns@,
                row_colors@,
                row as int,
                peak,
                left as nat,
                right as nat,
            ),
        decreases row,
    {
        write_meter_row(out, columns, row, row_colors[row - 1], peak, left, right);
        row = row - 1;
        assert(out@ =~= before + rows_above(
            columns@,
            row_colors@,
            row as int,
            peak,
            left as nat,
            right as nat,
        ));
    }
    assert(out@ =~= old(out)@ + visualizer(
        columns@,
        row_colors@,
        is_paused,
        inner_width as nat,
        visualizer_theme,
    ));
}

/// The panel that shows the meter.
pub open spec fn spectrum_panel(
    bars: Seq<MeterColumn>,
    colors: Seq<Color>,
    is_paused: bool,
    width: nat,
    theme: VisualizerTheme,
) -> Seq<PieceModel> {
    panel_top("spectrum"@, width, Color::Yellow) + visualizer(
        bars,
        colors,
        is_paused,
        floor_sub(width, 4),
        theme,
    ) + panel_bottom(width)
}

/// Adds the panel that shows the meter.
pub fn write_spectrum_panel(
    out: &mut Frame,
    columns: &[MeterColumn],
    row_colors: &[Color],
    is_paused: bool,
    width: usize,
    visualizer_theme: VisualizerTheme,
)
    ensures
        final(out)@ == old(out)@ + spectrum_panel(
            columns@,
            row_colors@,
            is_paused,
            width as nat,
            visualizer_theme,
        ),
{
    write_panel_top(out, "spectrum", width, Color::Yellow);
    write_visualizer(
        out,
        columns,
        row_colors,
        is_paused,
        width.saturating_sub(4),
        visualizer_theme,
    );
    write_panel_bottom(out, width);
    proof {
        let w = width as nat;
        let top = panel_top("spectrum"@, w, Color::Yellow);
        let meter = visualizer(
            columns@,
            row_colors@,
            is_paused,
            floor_sub(w, 4),
            visualizer_theme,
        );
        lemma_append(old(out)@, top, meter);
        lemma_append(old(out)@, top + meter, panel_bottom(w));
    }
}

/// The title of the playlist: while there is a search, with what is searched for and how
/// many tracks match.
pub open spec fn title_text(query: Seq<char>, is_searching: bool, match_count: nat) -> Seq<char> {
    if query.len() == 0 && !is_searching {
        "playlist"@
    } else {
        "playlist /"@ + query + (if is_searching {
            "_"@
        } else {
            Seq::empty()
        }) + " ("@ + decimal(match_count) + ")"@
    }
}

/// The title of the playlist.
pub fn playlist_title(search_query: &str, is_searching: bool, match_count: usize) -> (title: String)
    ensures
        title@ == title_text(search_query@, is_searching, match_count as nat),
{
    if search_query.unicode_len() == 0 && !is_searching {
        return "playlist".to_owned();
    }
    let mut title = "playlist /".to_owned();
    title.append(search_query);
    if is_searching {
        title.append("_");
    }
    title.append(" (");
    push_decimal(&mut title, match_count as u64);
    title.append(")");
    assert(title@ =~= title_text(search_query@, is_searching, match_count as nat));
    title
}

/// What is written behind the name of the track that plays.
pub open spec fn playing_mark(is_playing: bool) -> Seq<char> {
    if is_playing {
        " [PLAYING]"@
    } else {
        Seq::empty()
    }
}

/// A track in the playlist: its name, cut to what the row has room for, with marks for
/// the selected track and the one that plays.
pub open spec fn playlist_row(name: Seq<char>, is_selected: bool, is_playing: bool, width: nat) -> Seq<
    PieceModel,
> {
    let inner = floor_sub(width, 4);
    let mark = playing_mark(is_playing);
    let reserved = 2 + mark.len();
    let shown = truncated(name, floor_sub(inner, reserved));
    let padding = run(' ', floor_sub(inner, reserved + width_of(shown)));
    let content = if is_selected {
        seq![
            PieceModel::Background { r: 40, g: 44, b: 52 },
            fg(Color::Cyan),
            txt("▶ "@),
            fg(Color::White),
            txt(shown),
        ] + (if is_playing {
            seq![fg(Color::Green), txt(mark)]
        } else {
            Seq::empty()
        }) + seq![txt(padding), PieceModel::Reset]
    } else if is_playing {
        seq![fg(Color::Green), txt("  "@), txt(shown), fg(Color::Green), txt(mark), txt(padding)]
    } else {
        seq![fg(Color::DarkGrey), txt("  "@), txt(shown), txt(padding)]
    };
    seq![fg(Color::DarkGrey), txt("│ "@)] + content + seq![
        fg(Color::DarkGrey),
        txt(" │\r\n"@),
        PieceModel::Reset,
    ]
}

/// Adds a track of the playlist.
fn write_playlist_row(
    out: &mut Frame,
    name: &str,
    is_selected: bool,
    is_playing: bool,
    width: usize,
)
    ensures
        final(out)@ == old(out)@ + playlist_row(name@, is_selected, is_playing, width as nat),
{
    let inner: usize = width.saturating_sub(4);
    let mark: &str = if is_playing {
        " [PLAYING]"
    } else {
        ""
    };
    proof {
        reveal_strlit("");
        assert(""@ =~= Seq::<char>::empty());
    }
    let reserved: usize = mark.unicode_len().saturating_add(2);
    let shown = truncate(name, inner.saturating_sub(reserved));
    let used: usize = reserved.saturating_add(display_width(shown.as_str()));
    let padding = repeat_char(' ', inner.saturating_sub(used));
    assert(shown@ == truncated(name@, floor_sub(inner as nat, 2 + mark@.len())));
    assert(padding@ == run(
        ' ',
        floor_sub(inner as nat, 2 + mark@.len() + width_of(shown@)),
    ));
    out.color(Color::DarkGrey);
    out.text("│ ");
    if is_selected {
        out.background(40, 44, 52);
        out.color(Color::Cyan);
        out.text("▶ ");
        out.color(Color::White);
        out.text(shown.as_str());
        if is_playing {
            out.color(Color::Green);
            out.text(mark);
        }
        out.text(padding.as_str());
        out.reset();
    } else if is_playing {
        out.color(Color::Green);
        out.text("  ");
        out.text(shown.as_str());
        out.color(Color::Green);
        out.text(mark);
        out.text(padding.as_str());
    } else {
        out.color(Color::DarkGrey);
        out.text("  ");
        out.text(shown.as_str());
        out.text(padding.as_str());
    }
    out.color(Color::DarkGrey);
    out.text(" │\r\n");
    out.reset();
    assert(out@ =~= old(out)@ + playlist_row(name@, is_selected, is_playing, width as nat));
}

/// The position of the first track of the playlist that is shown: the first one, or the
/// one that lets the selected track be the last that is shown.
pub open spec fn first_shown(indices: Seq<usize>, current_index: usize, visible_rows: nat) -> nat {
    let selected = match position_of(indices, current_index) {
        Some(position) => position as nat,
        None => 0,
    };
    floor_sub(selected, floor_sub(visible_rows, 1))
}

/// The position behind the last track of the playlist that is shown.
pub open spec fn shown_end(indices: Seq<usize>, current_index: usize, visible_rows: nat) -> nat {
    let end = first_shown(indices, current_index, visible_rows) + visible_rows;
    if end < indices.len() {
        end
    } else {
        indices.len()
    }
}

/// Whether the tracks of the playlist that are shown are among the first `count`.
pub open spec fn shown_exist(
    indices: Seq<usize>,
    current_index: usize,
    visible_rows: nat,
    count: nat,
) -> bool {
    forall|k: int|
        first_shown(indices, current_index, visible_rows) <= k < shown_end(
            indices,
            current_index,
            visible_rows,
        ) ==> #[trigger] indices[k] < count
}

/// The tracks of the playlist from position `start` up to, not including, `end`.
pub open spec fn playlist_rows(
    files: Seq<TrackFile>,
    indices: Seq<usize>,
    start: int,
    end: int,
    current_index: usize,
    playing_index: Option<usize>,
    width: nat,
) -> Seq<PieceModel>
    decreases end - start,
{
    if start >= end {
        Seq::empty()
    } else {
        let index = indices[end - 1];
        playlist_rows(files, indices, start, end - 1, current_index, playing_index, width)
            + playlist_row(
            name_of(files[index as int]),
            index == current_index,
            Some(index) == playing_index,
            width,
        )
    }
}

/// The panel that shows the playlist.
pub open spec fn playlist_panel(
    files: Seq<TrackFile>,
    indices: Seq<usize>,
    current_index: usize,
    playing_index: Option<usize>,
    query: Seq<char>,
    is_searching: bool,
    visible_rows: nat,
    width: nat,
) -> Seq<PieceModel> {
    panel_top(title_text(query, is_searching, indices.len()), width, Color::Red) + playlist_rows(
        files,
        indices,
        first_shown(indices, current_index, visible_rows) as int,
        shown_end(indices, current_index, visible_rows) as int,
        current_index,
        playing_index,
        width,
    ) + (if indices.len() == 0 {
        panel_text(width, Seq::empty(), "No matches"@, Color::DarkGrey)
    } else {
        Seq::empty()
    }) + panel_bottom(width)
}

/// Adds the panel that shows the playlist, `visible_rows` tracks at most.
pub fn write_playlist_panel(
    out: &mut Frame,
    audio_files: &[TrackFile],
    playlist_indices: &[usize],
    current_index: usize,
    playing_index: Option<usize>,
    search_query: &str,
    is_searching: bool,
    visible_rows: usize,
    width: usize,
)
    requires
        shown_exist(playlist_indices@, current_index, visible_rows as nat, audio_files@.len()),
    ensures
        final(out)@ == old(out)@ + playlist_panel(
            audio_files@,
            playlist_indices@,
            current_index,
            playing_index,
            search_query@,
            is_searching,
            visible_rows as nat,
            width as nat,
        ),
{
    let title = playlist_title(search_query, is_searching, playlist_indices.len());
    write_panel_top(out, title.as_str(), width, Color::Red);
    let selected: usize = match find_position(playlist_indices, current_index) {
        Some(position) => position,
        None => 0,
    };
    let start: usize = selected.saturating_sub(visible_rows.saturating_sub(1));
    let count: usize = playlist_indices.len();
    let end: usize = if start < count && visible_rows < count - start {
        start + visible_rows
    } else {
        count
    };
    assert(start == first_shown(playlist_indices@, current_index, visible_rows as nat));
    assert(end == shown_end(playlist_indices@, current_index, visible_rows as nat));
    let ghost before = out@;
    let mut k: usize = start;
    assert(out@ =~= before + playlist_rows(
        audio_files@,
        playlist_indices@,
        start as int,
        start as int,
        current_index,
        playing_index,
        width as nat,
    ));
    while k < end
        invariant
            start <= k,
            start <= end ==> k <= end,
            end <= playlist_indices@.len(),
            start > end ==> k == start,
            start == first_shown(playlist_indices@, current_index, visible_rows as nat),
            end == shown_end(playlist_indices@, current_index, visible_rows as nat),
            shown_exist(playlist_indices@, current_index, visible_rows as nat, audio_files@.len()),
            out@ == before + playlist_rows(
                audio_files@,
                playlist_indices@,
                start as int,
                k as int,
                current_index,
                playing_index,
                width as nat,
            ),
        decreases end - k,
    {
        let index: usize = playlist_indices[k];
        assert(playlist_indices@[k as int] < audio_files@.len());
        let name = display_name(&audio_files[index]);
        let is_playing: bool = match playing_index {
            Some(playing) => playing == index,
            None => false,
        };
        write_playlist_row(out, name.as_str(), index == current_index, is_playing, width);
        assert(out@ =~= before + playlist_rows(
            audio_files@,
            playlist_indices@,
            start as int,
            k + 1,
            current_index,
            playing_index,
            width as nat,
        ));
        k = k + 1;
    }
    let ghost listed = out@;
    if count == 0 {
        proof {
            reveal_strlit("");
            assert(""@ =~= Seq::<char>::empty());
        }
        write_panel_text(out, width, "", "No matches", Color::DarkGrey);
    }
    let ghost note = if count == 0 {
        panel_text(width as nat, Seq::empty(), "No matches"@, Color::DarkGrey)
    } else {
        Seq::empty()
    };
    assert(out@ =~= listed + note);
    write_panel_bottom(out, width);
    proof {
        let w = width as nat;
        let top = panel_top(title@, w, Color::Red);
        let rows = playlist_rows(
            audio_files@,
            playlist_indices@,
            start as int,
            end as int,
            current_index,
            playing_index,
            w,
        );
        assert(k == end || rows.len() == 0);
        lemma_append(old(out)@, top, rows);
        lemma_append(old(out)@, top + rows, note);
        lemma_append(old(out)@, top + rows + note, panel_bottom(w));
    }
}

} // verus!
