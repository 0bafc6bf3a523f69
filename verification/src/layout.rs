//! How high and how wide header and panels are, and what they show.
use vstd::prelude::*;
use crate::meter::{
    bars_fit, bars_for, columns_of, filled_eighths, peak_color, segment, METER_BAR_GAP,
    METER_BAR_WIDTH,
};
use crate::mode::{RepeatMode, VisualizerTheme};
use crate::panels::{
    bar_columns, cell_pieces, cells_pieces, first_shown, header, labelled, left_padding, meter_row,
    mode_parts, optional_row, panel_bottom, panel_line, panel_text, panel_top, part_columns,
    part_pieces, peak_shown, playback_panel, playing_mark, playlist_panel, playlist_row,
    playlist_rows, progress_bar, right_padding, row_end, rows_above, shown_end, spectrum_panel,
    status_parts, time_row, title_text, track_rows, visualizer, MeterColumn, Parts, VolumeGauge,
};
use crate::playlist::{lemma_position_from, position_of};
use crate::style::{
    colors_keep_height, fg, frame_lines, lemma_decimal_no_line_feeds, lemma_frame_lines_concat,
    lemma_frame_lines_push, lemma_line_feeds_concat, lemma_no_line_feeds, line_feeds, renders, txt,
    Color, PieceModel,
};
use crate::text::{
    char_width, decimal, floor_sub, lemma_width_concat, lemma_width_run, run, truncated, two_digits,
    width_of,
};
use crate::time::{clock_text, progress_text, PlayTime};
use crate::track::{name_of, TrackFile, TrackMetadata};

verus! {

/// The line feeds of the texts that frame a row.
proof fn lemma_edge_line_feeds()
    ensures
        line_feeds(" "@) == 0,
        line_feeds("│ "@) == 0,
        line_feeds("│\r\n"@) == 1,
        line_feeds("┌"@) == 0,
        line_feeds("┐\r\n"@) == 1,
        line_feeds("└"@) == 0,
        line_feeds("┘\r\n"@) == 1,
{
    reveal_strlit(" ");
    reveal_strlit("│ ");
    reveal_strlit("│\r\n");
    reveal_strlit("┌");
    reveal_strlit("┐\r\n");
    reveal_strlit("└");
    reveal_strlit("┘\r\n");
    lemma_no_line_feeds(" "@);
    lemma_no_line_feeds("│ "@);
    lemma_no_line_feeds("┌"@);
    lemma_no_line_feeds("└"@);
    lemma_no_line_feeds("│\r\n"@.drop_last());
    lemma_no_line_feeds("┐\r\n"@.drop_last());
    lemma_no_line_feeds("┘\r\n"@.drop_last());
}

/// A cut text has no line feeds if the text has none.
proof fn lemma_cut_no_line_feeds(value: Seq<char>, max_len: nat)
    requires
        line_feeds(value) == 0,
    ensures
        line_feeds(truncated(value, max_len)) == 0,
{
    if value.len() > max_len && max_len > 1 {
        let kept = value.take(max_len - 1);
        assert(value =~= kept + value.skip(max_len - 1));
        lemma_line_feeds_concat(kept, value.skip(max_len - 1));
        assert(truncated(value, max_len).drop_last() =~= kept);
    }
}

/// The end of a row ends one line.
proof fn lemma_row_end_lines(width: nat, used: nat)
    ensures
        line_feeds(row_end(width, used)) == 1,
{
    let padding = run(' ', floor_sub(width, used));
    lemma_edge_line_feeds();
    lemma_no_line_feeds(padding);
    lemma_line_feeds_concat(padding, "│\r\n"@);
}

/// Each edge of a panel is one line.
proof fn lemma_edges_lines(title: Seq<char>, width: nat, color: Color)
    requires
        line_feeds(title) == 0,
    ensures
        frame_lines(panel_top(title, width, color)) == 1,
        frame_lines(panel_bottom(width)) == 1,
{
    lemma_edge_line_feeds();
    let shown = truncated(title, floor_sub(width, 4));
    lemma_cut_no_line_feeds(title, floor_sub(width, 4));
    let caption = " "@ + shown + " "@;
    lemma_line_feeds_concat(" "@, shown);
    lemma_line_feeds_concat(" "@ + shown, " "@);
    let fill = run('─', floor_sub(width, shown.len() + 4));
    lemma_no_line_feeds(fill);
    let p0 = Seq::<PieceModel>::empty();
    let p1 = p0.push(fg(Color::DarkGrey));
    let p2 = p1.push(txt("┌"@));
    let p3 = p2.push(fg(color));
    let p4 = p3.push(txt(caption));
    let p5 = p4.push(fg(Color::DarkGrey));
    let p6 = p5.push(txt(fill));
    let p7 = p6.push(txt("┐\r\n"@));
    lemma_frame_lines_push(p0, fg(Color::DarkGrey));
    lemma_frame_lines_push(p1, txt("┌"@));
    lemma_frame_lines_push(p2, fg(color));
    lemma_frame_lines_push(p3, txt(caption));
    lemma_frame_lines_push(p4, fg(Color::DarkGrey));
    lemma_frame_lines_push(p5, txt(fill));
    lemma_frame_lines_push(p6, txt("┐\r\n"@));
    lemma_frame_lines_push(p7, PieceModel::Reset);
    assert(panel_top(title, width, color) =~= p7.push(PieceModel::Reset));
    let line = run('─', floor_sub(width, 2));
    lemma_no_line_feeds(line);
    lemma_line_feeds_concat("└"@, line);
    lemma_line_feeds_concat("└"@ + line, "┘\r\n"@);
    let edge = "└"@ + line + "┘\r\n"@;
    lemma_frame_lines_push(p1, txt(edge));
    lemma_frame_lines_push(p1.push(txt(edge)), PieceModel::Reset);
    assert(panel_bottom(width) =~= p1.push(txt(edge)).push(PieceModel::Reset));
}

/// A row that holds one value is one line.
proof fn lemma_text_row_lines(width: nat, label: Seq<char>, value: Seq<char>, color: Color)
    requires
        line_feeds(label) == 0,
        line_feeds(value) == 0,
    ensures
        frame_lines(panel_text(width, label, value, color)) == 1,
{
    lemma_edge_line_feeds();
    reveal_strlit(": ");
    lemma_no_line_feeds(": "@);
    lemma_line_feeds_concat(label, ": "@);
    lemma_line_feeds_concat(label + ": "@, value);
    lemma_cut_no_line_feeds(labelled(label, value), floor_sub(width, 4));
    let shown = truncated(labelled(label, value), floor_sub(width, 4));
    let end = row_end(width, width_of(shown) + 3);
    lemma_row_end_lines(width, width_of(shown) + 3);
    let p0 = Seq::<PieceModel>::empty();
    let p1 = p0.push(fg(Color::DarkGrey));
    let p2 = p1.push(txt("│ "@));
    let p3 = p2.push(fg(color));
    let p4 = p3.push(txt(shown));
    let p5 = p4.push(fg(Color::DarkGrey));
    let p6 = p5.push(txt(end));
    lemma_frame_lines_push(p0, fg(Color::DarkGrey));
    lemma_frame_lines_push(p1, txt("│ "@));
    lemma_frame_lines_push(p2, fg(color));
    lemma_frame_lines_push(p3, txt(shown));
    lemma_frame_lines_push(p4, fg(Color::DarkGrey));
    lemma_frame_lines_push(p5, txt(end));
    lemma_frame_lines_push(p6, PieceModel::Reset);
    assert(panel_text(width, label, value, color) =~= p6.push(PieceModel::Reset));
}

/// Coloured parts without line feeds give none.
proof fn lemma_parts_no_lines(parts: Parts)
    requires
        forall|i: int| 0 <= i < parts.len() ==> line_feeds((#[trigger] parts[i]).0) == 0,
    ensures
        frame_lines(part_pieces(parts)) == 0,
    decreases parts.len(),
{
    if parts.len() > 0 {
        let init = part_pieces(parts.drop_last());
        assert forall|i: int| 0 <= i < parts.drop_last().len() implies line_feeds(
            (#[trigger] parts.drop_last()[i]).0,
        ) == 0 by {
            assert(line_feeds(parts[i].0) == 0);
        }
        assert(line_feeds(parts[parts.len() - 1].0) == 0);
        lemma_parts_no_lines(parts.drop_last());
        lemma_frame_lines_push(init, fg(parts.last().1));
        lemma_frame_lines_push(init.push(fg(parts.last().1)), txt(parts.last().0));
        assert(part_pieces(parts) =~= init.push(fg(parts.last().1)).push(txt(parts.last().0)));
    }
}

/// A row of coloured parts is one line.
proof fn lemma_line_lines(width: nat, parts: Parts)
    requires
        forall|i: int| 0 <= i < parts.len() ==> line_feeds((#[trigger] parts[i]).0) == 0,
    ensures
        frame_lines(panel_line(width, parts)) == 1,
{
    lemma_edge_line_feeds();
    lemma_parts_no_lines(parts);
    let end = row_end(width, part_columns(parts) + 3);
    lemma_row_end_lines(width, part_columns(parts) + 3);
    let p0 = Seq::<PieceModel>::empty();
    let p1 = p0.push(fg(Color::DarkGrey));
    let p2 = p1.push(txt("│ "@));
    lemma_frame_lines_push(p0, fg(Color::DarkGrey));
    lemma_frame_lines_push(p1, txt("│ "@));
    lemma_frame_lines_concat(p2, part_pieces(parts));
    let q = p2 + part_pieces(parts);
    let q1 = q.push(fg(Color::DarkGrey));
    let q2 = q1.push(txt(end));
    lemma_frame_lines_push(q, fg(Color::DarkGrey));
    lemma_frame_lines_push(q1, txt(end));
    lemma_frame_lines_push(q2, PieceModel::Reset);
    assert(panel_line(width, parts) =~= q2.push(PieceModel::Reset));
}

/// The row that shows state, volume and theme is one line.
proof fn lemma_status_row_lines(
    width: nat,
    playing: bool,
    is_paused: bool,
    gauge: VolumeGauge,
    theme: VisualizerTheme,
)
    requires
        line_feeds(gauge.percent@) == 0,
    ensures
        frame_lines(panel_line(width, status_parts(playing, is_paused, gauge, theme))) == 1,
{
    reveal_strlit("state");
    reveal_strlit(" ");
    reveal_strlit("■ IDLE");
    reveal_strlit("⏸ PAUSED");
    reveal_strlit("▶ PLAYING");
    reveal_strlit("  volume");
    reveal_strlit(" [");
    reveal_strlit("]");
    reveal_strlit("  theme");
    reveal_strlit("Cyberpunk Neon");
    reveal_strlit("Golden Sunset");
    reveal_strlit("Northern Aurora");
    reveal_strlit("Classic Vintage");
    let parts = status_parts(playing, is_paused, gauge, theme);
    assert forall|i: int| 0 <= i < parts.len() implies line_feeds((#[trigger] parts[i]).0) == 0 by {
        if i != 5 {
            lemma_no_line_feeds(parts[i].0);
        }
    }
    lemma_line_lines(width, parts);
}

/// The row that shows how playback goes on is one line.
proof fn lemma_mode_row_lines(width: nat, mode: RepeatMode, shuffle: bool)
    ensures
        frame_lines(panel_line(width, mode_parts(mode, shuffle))) == 1,
{
    reveal_strlit("repeat");
    reveal_strlit(" ");
    reveal_strlit("→ OFF");
    reveal_strlit("🔁 ALL");
    reveal_strlit("🔂 ONE");
    reveal_strlit("  shuffle");
    reveal_strlit("🔀 ON");
    let parts = mode_parts(mode, shuffle);
    assert forall|i: int| 0 <= i < parts.len() implies line_feeds((#[trigger] parts[i]).0) == 0 by {
        lemma_no_line_feeds(parts[i].0);
    }
    lemma_line_lines(width, parts);
}

/// Positions are written without line feeds.
proof fn lemma_clock_no_line_feeds(secs: nat)
    ensures
        line_feeds(clock_text(secs)) == 0,
{
    let (minutes, seconds) = (secs / 60, secs % 60);
    reveal_strlit(":");
    lemma_no_line_feeds(":"@);
    lemma_no_line_feeds(seq!['0']);
    lemma_decimal_no_line_feeds(minutes);
    lemma_decimal_no_line_feeds(seconds);
    lemma_line_feeds_concat(seq!['0'], decimal(minutes));
    lemma_line_feeds_concat(seq!['0'], decimal(seconds));
    lemma_line_feeds_concat(two_digits(minutes), ":"@);
    lemma_line_feeds_concat(two_digits(minutes) + ":"@, two_digits(seconds));
}

/// Progress is written without line feeds.
proof fn lemma_progress_no_line_feeds(elapsed: PlayTime, duration: Option<PlayTime>)
    ensures
        line_feeds(progress_text(elapsed, duration)) == 0,
{
    let start = clock_text(elapsed.secs as nat);
    lemma_clock_no_line_feeds(elapsed.secs as nat);
    match duration {
        Some(end) => {
            let stop = clock_text(end.secs as nat);
            reveal_strlit(" / ");
            lemma_no_line_feeds(" / "@);
            lemma_clock_no_line_feeds(end.secs as nat);
            lemma_line_feeds_concat(" / "@, stop);
            lemma_line_feeds_concat(start, " / "@ + stop);
        },
        None => {
            reveal_strlit(" / --:--");
            lemma_no_line_feeds(" / --:--"@);
            lemma_line_feeds_concat(start, " / --:--"@);
        },
    }
}

/// The progress bar has no line feeds.
proof fn lemma_bar_no_lines(available: nat, filled: nat, is_loading: bool)
    ensures
        frame_lines(progress_bar(available, filled, is_loading)) == 0,
{
    reveal_strlit("●");
    reveal_strlit("━");
    let start = txt(run('━', floor_sub(filled, 1)));
    let knob = txt(if filled > 0 { "●"@ } else { "━"@ });
    let empty = if is_loading { '━' } else { '─' };
    let rest = txt(run(empty, floor_sub(available, filled)));
    lemma_no_line_feeds(run('━', floor_sub(filled, 1)));
    lemma_no_line_feeds("●"@);
    lemma_no_line_feeds("━"@);
    lemma_no_line_feeds(run(empty, floor_sub(available, filled)));
    if available > 4 {
        let p0 = Seq::<PieceModel>::empty();
        let p1 = p0.push(fg(Color::Rgb { r: 0, g: 245, b: 212 }));
        let p2 = p1.push(start);
        let p3 = p2.push(fg(Color::White));
        let p4 = p3.push(knob);
        let p5 = p4.push(fg(Color::DarkGrey));
        lemma_frame_lines_push(p0, fg(Color::Rgb { r: 0, g: 245, b: 212 }));
        lemma_frame_lines_push(p1, start);
        lemma_frame_lines_push(p2, fg(Color::White));
        lemma_frame_lines_push(p3, knob);
        lemma_frame_lines_push(p4, fg(Color::DarkGrey));
        lemma_frame_lines_push(p5, rest);
        assert(progress_bar(available, filled, is_loading) =~= p5.push(rest));
    }
}

/// The row that shows the position in the track is one line.
proof fn lemma_time_row_lines(width: nat, time: Seq<char>, filled: nat, is_loading: bool)
    requires
        line_feeds(time) == 0,
    ensures
        frame_lines(time_row(width, time, filled, is_loading)) == 1,
{
    let available = bar_columns(width, time);
    let bar = progress_bar(available, filled, is_loading);
    let used = 4 + "time: "@.len() + available + 1 + time.len();
    let end = txt(row_end(width, used));
    lemma_edge_line_feeds();
    lemma_bar_no_lines(available, filled, is_loading);
    lemma_row_end_lines(width, used);
    reveal_strlit("time: ");
    lemma_no_line_feeds("time: "@);
    lemma_line_feeds_concat(" "@, time);
    let p0 = Seq::<PieceModel>::empty();
    let p1 = p0.push(fg(Color::DarkGrey));
    let p2 = p1.push(txt("│ "@));
    let p3 = p2.push(fg(Color::Green));
    let p4 = p3.push(txt("time: "@));
    lemma_frame_lines_push(p0, fg(Color::DarkGrey));
    lemma_frame_lines_push(p1, txt("│ "@));
    lemma_frame_lines_push(p2, fg(Color::Green));
    lemma_frame_lines_push(p3, txt("time: "@));
    lemma_frame_lines_concat(p4, bar);
    let q = p4 + bar;
    let q1 = q.push(fg(Color::White));
    let q2 = q1.push(txt(" "@ + time));
    let q3 = q2.push(fg(Color::DarkGrey));
    let q4 = q3.push(end);
    lemma_frame_lines_push(q, fg(Color::White));
    lemma_frame_lines_push(q1, txt(" "@ + time));
    lemma_frame_lines_push(q2, fg(Color::DarkGrey));
    lemma_frame_lines_push(q3, end);
    lemma_frame_lines_push(q4, PieceModel::Reset);
    assert(time_row(width, time, filled, is_loading) =~= q4.push(PieceModel::Reset));
}

/// Whether a text that may be missing has no line feeds.
pub open spec fn one_line(text: Option<String>) -> bool {
    text matches Some(text) ==> line_feeds(text@) == 0
}

/// The number of rows that say what plays: one, and while a track plays that has tags, one
/// more each for an artist and an album.
pub open spec fn track_row_count(
    playing: Option<Seq<char>>,
    metadata: Option<TrackMetadata>,
) -> nat {
    match (playing, metadata) {
        (Some(_), Some(tags)) => 1 + (if tags.artist is Some {
            1nat
        } else {
            0
        }) + (if tags.album is Some {
            1nat
        } else {
            0
        }),
        _ => 1,
    }
}

/// The rows that say what plays are that many lines.
proof fn lemma_track_rows_lines(
    width: nat,
    playing: Option<Seq<char>>,
    metadata: Option<TrackMetadata>,
)
    requires
        playing matches Some(name) ==> line_feeds(name) == 0,
        metadata matches Some(tags) ==> one_line(tags.title) && one_line(tags.artist) && one_line(
            tags.album,
        ),
    ensures
        frame_lines(track_rows(width, playing, metadata)) == track_row_count(playing, metadata),
{
    reveal_strlit("track");
    reveal_strlit("none");
    reveal_strlit("title");
    reveal_strlit("artist");
    reveal_strlit("album");
    lemma_no_line_feeds("track"@);
    lemma_no_line_feeds("none"@);
    lemma_no_line_feeds("title"@);
    lemma_no_line_feeds("artist"@);
    lemma_no_line_feeds("album"@);
    match playing {
        None => {
            lemma_text_row_lines(width, "track"@, "none"@, Color::White);
        },
        Some(name) => match metadata {
            None => {
                lemma_text_row_lines(width, "track"@, name, Color::White);
            },
            Some(tags) => {
                let shown = match tags.title {
                    Some(title) => title@,
                    None => name,
                };
                let first = panel_text(width, "title"@, shown, Color::White);
                let artist = optional_row(width, "artist"@, tags.artist, Color::White);
                let album = optional_row(width, "album"@, tags.album, Color::DarkGrey);
                lemma_text_row_lines(width, "title"@, shown, Color::White);
                if let Some(text) = tags.artist {
                    lemma_text_row_lines(width, "artist"@, text@, Color::White);
                }
                if let Some(text) = tags.album {
                    lemma_text_row_lines(width, "album"@, text@, Color::DarkGrey);
                }
                lemma_frame_lines_concat(first, artist);
                lemma_frame_lines_concat(first + artist, album);
            },
        },
    }
}

/// Where no text holds a line feed, the playback panel is seven lines high, and while a
/// track plays that has tags, one more each for an artist and an album; on the terminal too,
/// with colours or without.
pub proof fn playback_panel_height(
    playing: Option<Seq<char>>,
    status: Seq<char>,
    elapsed: PlayTime,
    duration: Option<PlayTime>,
    metadata: Option<TrackMetadata>,
    is_paused: bool,
    gauge: VolumeGauge,
    filled: nat,
    is_loading: bool,
    repeat_mode: RepeatMode,
    shuffle: bool,
    theme: VisualizerTheme,
    width: nat,
)
    requires
        playing matches Some(name) ==> line_feeds(name) == 0,
        line_feeds(status) == 0,
        line_feeds(gauge.percent@) == 0,
        metadata matches Some(tags) ==> one_line(tags.title) && one_line(tags.artist) && one_line(
            tags.album,
        ),
    ensures
        ({
            let panel = playback_panel(
                playing,
                status,
                progress_text(elapsed, duration),
                metadata,
                is_paused,
                gauge,
                filled,
                is_loading,
                repeat_mode,
                shuffle,
                theme,
                width,
            );
            let lines = 7 + (if playing is Some && metadata is Some && metadata->0.artist is Some {
                1nat
            } else {
                0
            }) + (if playing is Some && metadata is Some && metadata->0.album is Some {
                1nat
            } else {
                0
            });
            &&& frame_lines(panel) == lines
            &&& forall|text: Seq<char>| #[trigger] renders(panel, text) ==> line_feeds(text) == lines
        }),
{
    let time = progress_text(elapsed, duration);
    reveal_strlit("playback");
    reveal_strlit("info");
    lemma_no_line_feeds("playback"@);
    lemma_no_line_feeds("info"@);
    lemma_edges_lines("playback"@, width, Color::Green);
    lemma_status_row_lines(width, playing is Some, is_paused, gauge, theme);
    lemma_mode_row_lines(width, repeat_mode, shuffle);
    lemma_track_rows_lines(width, playing, metadata);
    lemma_text_row_lines(width, "info"@, status, Color::DarkGrey);
    lemma_progress_no_line_feeds(elapsed, duration);
    lemma_time_row_lines(width, time, filled, is_loading);
    let p1 = panel_top("playback"@, width, Color::Green);
    let x2 = panel_line(width, status_parts(playing is Some, is_paused, gauge, theme));
    let x3 = panel_line(width, mode_parts(repeat_mode, shuffle));
    let x4 = track_rows(width, playing, metadata);
    let x5 = panel_text(width, "info"@, status, Color::DarkGrey);
    let x6 = time_row(width, time, filled, is_loading);
    lemma_frame_lines_concat(p1, x2);
    lemma_frame_lines_concat(p1 + x2, x3);
    lemma_frame_lines_concat(p1 + x2 + x3, x4);
    lemma_frame_lines_concat(p1 + x2 + x3 + x4, x5);
    lemma_frame_lines_concat(p1 + x2 + x3 + x4 + x5, x6);
    lemma_frame_lines_concat(p1 + x2 + x3 + x4 + x5 + x6, panel_bottom(width));
    let panel = p1 + x2 + x3 + x4 + x5 + x6 + panel_bottom(width);
    assert forall|text: Seq<char>| #[trigger] renders(panel, text) implies line_feeds(text)
        == frame_lines(panel) by {
        colors_keep_height(panel, text);
    }
}

/// While nothing plays, neither tags nor the pause make a difference to the playback panel.
pub proof fn idle_panel_ignores_tags_and_pause(
    status: Seq<char>,
    time: Seq<char>,
    metadata: Option<TrackMetadata>,
    other_metadata: Option<TrackMetadata>,
    is_paused: bool,
    other_is_paused: bool,
    gauge: VolumeGauge,
    filled: nat,
    is_loading: bool,
    repeat_mode: RepeatMode,
    shuffle: bool,
    theme: VisualizerTheme,
    width: nat,
)
    ensures
        playback_panel(
            None,
            status,
            time,
            metadata,
            is_paused,
            gauge,
            filled,
            is_loading,
            repeat_mode,
            shuffle,
            theme,
            width,
        ) == playback_panel(
            None,
            status,
            time,
            other_metadata,
            other_is_paused,
            gauge,
            filled,
            is_loading,
            repeat_mode,
            shuffle,
            theme,
            width,
        ),
{
}

/// The header is one line.
pub proof fn header_height(width: nat)
    ensures
        frame_lines(header(width)) == 1,
{
    let title = " music_player "@;
    let controls = " / search  r repeat  s shuffle  t theme  Enter play  q quit "@;
    let fill = run('─', floor_sub(width, 2 + title.len() + controls.len()));
    lemma_edge_line_feeds();
    reveal_strlit(" music_player ");
    reveal_strlit(" / search  r repeat  s shuffle  t theme  Enter play  q quit ");
    lemma_no_line_feeds(title);
    lemma_no_line_feeds(controls);
    lemma_no_line_feeds(fill);
    let p0 = Seq::<PieceModel>::empty();
    let p1 = p0.push(fg(Color::DarkGrey));
    let p2 = p1.push(txt("┌"@));
    let p3 = p2.push(fg(Color::Green));
    let p4 = p3.push(txt(title));
    let p5 = p4.push(fg(Color::DarkGrey));
    let p6 = p5.push(txt(fill));
    let p7 = p6.push(fg(Color::White));
    let p8 = p7.push(txt(controls));
    let p9 = p8.push(fg(Color::DarkGrey));
    let p10 = p9.push(txt("┐\r\n"@));
    lemma_frame_lines_push(p0, fg(Color::DarkGrey));
    lemma_frame_lines_push(p1, txt("┌"@));
    lemma_frame_lines_push(p2, fg(Color::Green));
    lemma_frame_lines_push(p3, txt(title));
    lemma_frame_lines_push(p4, fg(Color::DarkGrey));
    lemma_frame_lines_push(p5, txt(fill));
    lemma_frame_lines_push(p6, fg(Color::White));
    lemma_frame_lines_push(p7, txt(controls));
    lemma_frame_lines_push(p8, fg(Color::DarkGrey));
    lemma_frame_lines_push(p9, txt("┐\r\n"@));
    lemma_frame_lines_push(p10, PieceModel::Reset);
    assert(header(width) =~= p10.push(PieceModel::Reset));
}

/// What bars show in a row has no line feeds.
proof fn lemma_cells_no_lines(
    bars: Seq<MeterColumn>,
    count: nat,
    row: int,
    color: Color,
    peak: Color,
)
    requires
        count <= bars.len(),
    ensures
        frame_lines(cells_pieces(bars, count, row, color, peak)) == 0,
    decreases count,
{
    if count > 0 {
        let before = cells_pieces(bars, (count - 1) as nat, row, color, peak);
        let column = bars[count - 1];
        let cell = cell_pieces(column, row, color, peak);
        let p0 = Seq::<PieceModel>::empty();
        lemma_cells_no_lines(bars, (count - 1) as nat, row, color, peak);
        if peak_shown(row, column) {
            let mark = run('▀', METER_BAR_WIDTH as nat);
            lemma_no_line_feeds(mark);
            lemma_frame_lines_push(p0, fg(peak));
            lemma_frame_lines_push(p0.push(fg(peak)), txt(mark));
            lemma_frame_lines_push(p0.push(fg(peak)).push(txt(mark)), fg(color));
            assert(cell =~= p0.push(fg(peak)).push(txt(mark)).push(fg(color)));
        } else {
            let bar = run(
                segment(filled_eighths(row, column.level as int)),
                METER_BAR_WIDTH as nat,
            );
            lemma_no_line_feeds(bar);
            lemma_frame_lines_push(p0, txt(bar));
            assert(cell =~= p0.push(txt(bar)));
        }
        lemma_frame_lines_concat(before, cell);
        if count < bars.len() {
            let gap = run(' ', METER_BAR_GAP as nat);
            lemma_no_line_feeds(gap);
            lemma_frame_lines_push(before + cell, txt(gap));
            assert(cells_pieces(bars, count, row, color, peak) =~= (before + cell).push(txt(gap)));
        } else {
            assert(cells_pieces(bars, count, row, color, peak) =~= before + cell);
        }
    }
}

/// The line feeds of the end of a row with a space before the edge.
proof fn lemma_spaced_edge_line_feeds()
    ensures
        line_feeds(" │\r\n"@) == 1,
{
    reveal_strlit(" │\r\n");
    lemma_no_line_feeds(" │\r\n"@.drop_last());
}

/// A row of the meter is one line.
proof fn lemma_meter_row_lines(
    bars: Seq<MeterColumn>,
    row: int,
    color: Color,
    peak: Color,
    left: nat,
    right: nat,
)
    ensures
        frame_lines(meter_row(bars, row, color, peak, left, right)) == 1,
{
    let cells = cells_pieces(bars, bars.len(), row, color, peak);
    let start = "│ "@ + run(' ', left);
    let end = run(' ', right) + " │\r\n"@;
    lemma_edge_line_feeds();
    lemma_spaced_edge_line_feeds();
    lemma_cells_no_lines(bars, bars.len(), row, color, peak);
    lemma_no_line_feeds(run(' ', left));
    lemma_no_line_feeds(run(' ', right));
    lemma_line_feeds_concat("│ "@, run(' ', left));
    lemma_line_feeds_concat(run(' ', right), " │\r\n"@);
    let p0 = Seq::<PieceModel>::empty();
    let p1 = p0.push(fg(Color::DarkGrey));
    let p2 = p1.push(txt(start));
    let p3 = p2.push(fg(color));
    lemma_frame_lines_push(p0, fg(Color::DarkGrey));
    lemma_frame_lines_push(p1, txt(start));
    lemma_frame_lines_push(p2, fg(color));
    lemma_frame_lines_concat(p3, cells);
    let q = p3 + cells;
    let q1 = q.push(PieceModel::Reset);
    let q2 = q1.push(fg(Color::DarkGrey));
    lemma_frame_lines_push(q, PieceModel::Reset);
    lemma_frame_lines_push(q1, fg(Color::DarkGrey));
    lemma_frame_lines_push(q2, txt(end));
    assert(meter_row(bars, row, color, peak, left, right) =~= q2.push(txt(end)));
}

/// The rows of the meter above a row are as many lines as they are rows.
proof fn lemma_rows_above_lines(
    bars: Seq<MeterColumn>,
    colors: Seq<Color>,
    row: int,
    peak: Color,
    left: nat,
    right: nat,
)
    requires
        0 <= row <= colors.len(),
    ensures
        frame_lines(rows_above(bars, colors, row, peak, left, right)) == colors.len() - row,
    decreases colors.len() - row,
{
    if row < colors.len() {
        lemma_rows_above_lines(bars, colors, row + 1, peak, left, right);
        lemma_meter_row_lines(bars, row + 1, colors[row], peak, left, right);
        lemma_frame_lines_concat(
            rows_above(bars, colors, row + 1, peak, left, right),
            meter_row(bars, row + 1, colors[row], peak, left, right),
        );
    }
}

/// The spectrum panel is three lines higher than the meter: its edges, and an empty row.
pub proof fn spectrum_panel_height(
    bars: Seq<MeterColumn>,
    colors: Seq<Color>,
    is_paused: bool,
    width: nat,
    theme: VisualizerTheme,
)
    ensures
        frame_lines(spectrum_panel(bars, colors, is_paused, width, theme)) == 3 + colors.len(),
{
    let inner = floor_sub(width, 4);
    let peak = peak_color(theme, is_paused);
    let (left, right) = (left_padding(inner), right_padding(inner));
    let top = panel_top("spectrum"@, width, Color::Yellow);
    let meter = visualizer(bars, colors, is_paused, inner, theme);
    let rows = rows_above(bars, colors, 0, peak, left, right);
    let empty = "│ "@ + run(' ', inner) + " │\r\n"@;
    lemma_edge_line_feeds();
    lemma_spaced_edge_line_feeds();
    reveal_strlit("spectrum");
    lemma_no_line_feeds("spectrum"@);
    lemma_edges_lines("spectrum"@, width, Color::Yellow);
    lemma_no_line_feeds(run(' ', inner));
    lemma_line_feeds_concat("│ "@, run(' ', inner));
    lemma_line_feeds_concat("│ "@ + run(' ', inner), " │\r\n"@);
    lemma_rows_above_lines(bars, colors, 0, peak, left, right);
    let p0 = Seq::<PieceModel>::empty();
    let p1 = p0.push(fg(Color::DarkGrey));
    let p2 = p1.push(txt(empty));
    lemma_frame_lines_push(p0, fg(Color::DarkGrey));
    lemma_frame_lines_push(p1, txt(empty));
    lemma_frame_lines_concat(p2, rows);
    assert(meter =~= p2 + rows);
    lemma_frame_lines_concat(top, meter);
    lemma_frame_lines_concat(top + meter, panel_bottom(width));
}

/// A track in the playlist is one line.
proof fn lemma_playlist_row_lines(
    name: Seq<char>,
    is_selected: bool,
    is_playing: bool,
    width: nat,
)
    requires
        line_feeds(name) == 0,
    ensures
        frame_lines(playlist_row(name, is_selected, is_playing, width)) == 1,
{
    let inner = floor_sub(width, 4);
    let mark = playing_mark(is_playing);
    let reserved = 2 + mark.len();
    let shown = truncated(name, floor_sub(inner, reserved));
    let pad = run(' ', floor_sub(inner, reserved + width_of(shown)));
    let back = PieceModel::Background { r: 40, g: 44, b: 52 };
    lemma_edge_line_feeds();
    lemma_spaced_edge_line_feeds();
    reveal_strlit(" [PLAYING]");
    reveal_strlit("▶ ");
    reveal_strlit("  ");
    lemma_no_line_feeds(mark);
    lemma_no_line_feeds("▶ "@);
    lemma_no_line_feeds("  "@);
    lemma_no_line_feeds(pad);
    lemma_cut_no_line_feeds(name, floor_sub(inner, reserved));
    let p0 = Seq::<PieceModel>::empty();
    let p1 = p0.push(fg(Color::DarkGrey));
    let p2 = p1.push(txt("│ "@));
    lemma_frame_lines_push(p0, fg(Color::DarkGrey));
    lemma_frame_lines_push(p1, txt("│ "@));
    let last = if is_selected {
        let a1 = p2.push(back);
        let a2 = a1.push(fg(Color::Cyan));
        let a3 = a2.push(txt("▶ "@));
        let a4 = a3.push(fg(Color::White));
        let a5 = a4.push(txt(shown));
        lemma_frame_lines_push(p2, back);
        lemma_frame_lines_push(a1, fg(Color::Cyan));
        lemma_frame_lines_push(a2, txt("▶ "@));
        lemma_frame_lines_push(a3, fg(Color::White));
        lemma_frame_lines_push(a4, txt(shown));
        let a7 = if is_playing {
            lemma_frame_lines_push(a5, fg(Color::Green));
            lemma_frame_lines_push(a5.push(fg(Color::Green)), txt(mark));
            a5.push(fg(Color::Green)).push(txt(mark))
        } else {
            a5
        };
        lemma_frame_lines_push(a7, txt(pad));
        lemma_frame_lines_push(a7.push(txt(pad)), PieceModel::Reset);
        a7.push(txt(pad)).push(PieceModel::Reset)
    } else if is_playing {
        let a1 = p2.push(fg(Color::Green));
        let a2 = a1.push(txt("  "@));
        let a3 = a2.push(txt(shown));
        let a4 = a3.push(fg(Color::Green));
        let a5 = a4.push(txt(mark));
        lemma_frame_lines_push(p2, fg(Color::Green));
        lemma_frame_lines_push(a1, txt("  "@));
        lemma_frame_lines_push(a2, txt(shown));
        lemma_frame_lines_push(a3, fg(Color::Green));
        lemma_frame_lines_push(a4, txt(mark));
        lemma_frame_lines_push(a5, txt(pad));
        a5.push(txt(pad))
    } else {
        let a1 = p2.push(fg(Color::DarkGrey));
        let a2 = a1.push(txt("  "@));
        let a3 = a2.push(txt(shown));
        lemma_frame_lines_push(p2, fg(Color::DarkGrey));
        lemma_frame_lines_push(a1, txt("  "@));
        lemma_frame_lines_push(a2, txt(shown));
        lemma_frame_lines_push(a3, txt(pad));
        a3.push(txt(pad))
    };
    let e1 = last.push(fg(Color::DarkGrey));
    let e2 = e1.push(txt(" │\r\n"@));
    lemma_frame_lines_push(last, fg(Color::DarkGrey));
    lemma_frame_lines_push(e1, txt(" │\r\n"@));
    lemma_frame_lines_push(e2, PieceModel::Reset);
    assert(playlist_row(name, is_selected, is_playing, width) =~= e2.push(PieceModel::Reset));
}

/// Tracks in the playlist are a line each.
proof fn lemma_playlist_rows_lines(
    files: Seq<TrackFile>,
    indices: Seq<usize>,
    start: int,
    end: int,
    current_index: usize,
    playing_index: Option<usize>,
    width: nat,
)
    requires
        0 <= start,
        forall|k: int|
            start <= k < end ==> line_feeds(name_of(files[#[trigger] indices[k] as int])) == 0,
    ensures
        frame_lines(
            playlist_rows(files, indices, start, end, current_index, playing_index, width),
        ) == (if start < end {
            end - start
        } else {
            0
        }),
    decreases end - start,
{
    if start < end {
        let index = indices[end - 1];
        let name = name_of(files[index as int]);
        lemma_playlist_rows_lines(
            files,
            indices,
            start,
            end - 1,
            current_index,
            playing_index,
            width,
        );
        lemma_playlist_row_lines(name, index == current_index, Some(index) == playing_index, width);
        lemma_frame_lines_concat(
            playlist_rows(files, indices, start, end - 1, current_index, playing_index, width),
            playlist_row(name, index == current_index, Some(index) == playing_index, width),
        );
    }
}

/// The title of the playlist has no line feeds if what is searched for has none.
proof fn lemma_title_no_line_feeds(query: Seq<char>, is_searching: bool, match_count: nat)
    requires
        line_feeds(query) == 0,
    ensures
        line_feeds(title_text(query, is_searching, match_count)) == 0,
{
    let cursor = if is_searching { "_"@ } else { Seq::empty() };
    let count = decimal(match_count);
    reveal_strlit("playlist");
    reveal_strlit("playlist /");
    reveal_strlit("_");
    reveal_strlit(" (");
    reveal_strlit(")");
    lemma_no_line_feeds("playlist"@);
    lemma_no_line_feeds("playlist /"@);
    lemma_no_line_feeds(cursor);
    lemma_no_line_feeds(" ("@);
    lemma_no_line_feeds(")"@);
    lemma_decimal_no_line_feeds(match_count);
    lemma_line_feeds_concat("playlist /"@, query);
    lemma_line_feeds_concat("playlist /"@ + query, cursor);
    lemma_line_feeds_concat("playlist /"@ + query + cursor, " ("@);
    lemma_line_feeds_concat("playlist /"@ + query + cursor + " ("@, count);
    lemma_line_feeds_concat("playlist /"@ + query + cursor + " ("@ + count, ")"@);
}

/// The number of rows between the edges of the playlist: one for each track that is shown,
/// and one that says so where there is none.
pub open spec fn playlist_row_count(
    indices: Seq<usize>,
    current_index: usize,
    visible_rows: nat,
) -> nat {
    if indices.len() == 0 {
        1
    } else {
        floor_sub(
            shown_end(indices, current_index, visible_rows),
            first_shown(indices, current_index, visible_rows),
        )
    }
}

/// Where no text holds a line feed, the playlist panel is two lines higher than its rows.
pub proof fn playlist_panel_height(
    files: Seq<TrackFile>,
    indices: Seq<usize>,
    current_index: usize,
    playing_index: Option<usize>,
    query: Seq<char>,
    is_searching: bool,
    visible_rows: nat,
    width: nat,
)
    requires
        line_feeds(query) == 0,
        forall|k: int|
            first_shown(indices, current_index, visible_rows) <= k < shown_end(
                indices,
                current_index,
                visible_rows,
            ) ==> line_feeds(name_of(files[#[trigger] indices[k] as int])) == 0,
    ensures
        frame_lines(
            playlist_panel(
                files,
                indices,
                current_index,
                playing_index,
                query,
                is_searching,
                visible_rows,
                width,
            ),
        ) == 2 + playlist_row_count(indices, current_index, visible_rows),
{
    let start = first_shown(indices, current_index, visible_rows) as int;
    let end = shown_end(indices, current_index, visible_rows) as int;
    let title = title_text(query, is_searching, indices.len());
    let top = panel_top(title, width, Color::Red);
    let rows = playlist_rows(files, indices, start, end, current_index, playing_index, width);
    let note = if indices.len() == 0 {
        panel_text(width, Seq::empty(), "No matches"@, Color::DarkGrey)
    } else {
        Seq::empty()
    };
    lemma_title_no_line_feeds(query, is_searching, indices.len());
    lemma_edges_lines(title, width, Color::Red);
    lemma_playlist_rows_lines(files, indices, start, end, current_index, playing_index, width);
    reveal_strlit("No matches");
    lemma_no_line_feeds("No matches"@);
    lemma_no_line_feeds(Seq::empty());
    lemma_text_row_lines(width, Seq::empty(), "No matches"@, Color::DarkGrey);
    lemma_frame_lines_concat(top, rows);
    lemma_frame_lines_concat(top + rows, note);
    lemma_frame_lines_concat(top + rows + note, panel_bottom(width));
}

/// The number of columns that the texts of pieces take up; the carriage return and the line
/// feed at the end of a row count as one each.
pub open spec fn columns(pieces: Seq<PieceModel>) -> nat
    decreases pieces.len(),
{
    if pieces.len() == 0 {
        0
    } else {
        columns(pieces.drop_last()) + (match pieces.last() {
            PieceModel::Text(text) => width_of(text),
            _ => 0,
        })
    }
}

/// Joining pieces adds up their columns.
proof fn lemma_columns_concat(a: Seq<PieceModel>, b: Seq<PieceModel>)
    ensures
        columns(a + b) == columns(a) + columns(b),
    decreases b.len(),
{
    if b.len() == 0 {
        assert(a + b =~= a);
    } else {
        lemma_columns_concat(a, b.drop_last());
        assert((a + b).drop_last() =~= a + b.drop_last());
        assert((a + b).last() == b.last());
    }
}

/// One more piece adds its columns.
proof fn lemma_columns_push(a: Seq<PieceModel>, piece: PieceModel)
    ensures
        columns(a.push(piece)) == columns(a) + (match piece {
            PieceModel::Text(text) => width_of(text),
            _ => 0,
        }),
{
    assert(a.push(piece).drop_last() =~= a);
}

/// The widths of the texts that frame a row.
proof fn lemma_edge_widths()
    ensures
        width_of(" "@) == 1,
        width_of("  "@) == 2,
        width_of("▶ "@) == 2,
        width_of("│ "@) == 2,
        width_of("│\r\n"@) == 3,
        width_of(" │\r\n"@) == 4,
        width_of("┌"@) == 1,
        width_of("┐\r\n"@) == 3,
        width_of("└"@) == 1,
        width_of("┘\r\n"@) == 3,
        width_of(" [PLAYING]"@) == 10,
        " [PLAYING]"@.len() == 10,
{
    reveal_strlit(" ");
    reveal_strlit("  ");
    reveal_strlit("▶ ");
    reveal_strlit("│ ");
    reveal_strlit("│\r\n");
    reveal_strlit(" │\r\n");
    reveal_strlit("┌");
    reveal_strlit("┐\r\n");
    reveal_strlit("└");
    reveal_strlit("┘\r\n");
    reveal_strlit(" [PLAYING]");
    lemma_width_narrow(" "@);
    lemma_width_narrow("  "@);
    lemma_width_narrow("▶ "@);
    lemma_width_narrow("│ "@);
    lemma_width_narrow("│\r\n"@);
    lemma_width_narrow(" │\r\n"@);
    lemma_width_narrow("┌"@);
    lemma_width_narrow("┐\r\n"@);
    lemma_width_narrow("└"@);
    lemma_width_narrow("┘\r\n"@);
    lemma_width_narrow(" [PLAYING]"@);
}

/// A text of narrow characters is as wide as it is long.
pub proof fn lemma_width_narrow(text: Seq<char>)
    requires
        forall|i: int| 0 <= i < text.len() ==> char_width(#[trigger] text[i]) == 1,
    ensures
        width_of(text) == text.len(),
    decreases text.len(),
{
    if text.len() > 0 {
        let init = text.drop_last();
        assert forall|i: int| 0 <= i < init.len() implies char_width(#[trigger] init[i])
            == 1 by {
            assert(char_width(text[i]) == 1);
        }
        assert(char_width(text[text.len() - 1]) == 1);
        lemma_width_narrow(init);
    }
}

/// The end of a row fills what is left of it.
proof fn lemma_row_end_width(width: nat, used: nat)
    ensures
        width_of(row_end(width, used)) == floor_sub(width, used) + 3,
{
    lemma_edge_widths();
    lemma_width_run(' ', floor_sub(width, used));
    lemma_width_concat(run(' ', floor_sub(width, used)), "│\r\n"@);
}

/// The edges of a panel span its width: the lower one always, the upper one where its title
/// is of narrow characters.
pub proof fn edges_span_the_width(title: Seq<char>, width: nat, color: Color)
    requires
        width >= 4,
        forall|i: int| 0 <= i < title.len() ==> char_width(#[trigger] title[i]) == 1,
    ensures
        columns(panel_top(title, width, color)) == width + 2,
        columns(panel_bottom(width)) == width + 2,
{
    lemma_edge_widths();
    let shown = truncated(title, floor_sub(width, 4));
    assert forall|i: int| 0 <= i < shown.len() implies char_width(#[trigger] shown[i])
        == 1 by {
        if i < title.len() && shown[i] == title[i] {
            assert(char_width(title[i]) == 1);
        } else {
            assert(shown[i] == '~');
        }
    }
    lemma_width_narrow(shown);
    assert(shown.len() <= width - 4);
    let caption = " "@ + shown + " "@;
    lemma_width_concat(" "@, shown);
    lemma_width_concat(" "@ + shown, " "@);
    let fill = run('─', floor_sub(width, shown.len() + 4));
    lemma_width_run('─', floor_sub(width, shown.len() + 4));
    let p0 = Seq::<PieceModel>::empty();
    let p1 = p0.push(fg(Color::DarkGrey));
    let p2 = p1.push(txt("┌"@));
    let p3 = p2.push(fg(color));
    let p4 = p3.push(txt(caption));
    let p5 = p4.push(fg(Color::DarkGrey));
    let p6 = p5.push(txt(fill));
    let p7 = p6.push(txt("┐\r\n"@));
    let p8 = p7.push(PieceModel::Reset);
    lemma_columns_push(p0, fg(Color::DarkGrey));
    lemma_columns_push(p1, txt("┌"@));
    lemma_columns_push(p2, fg(color));
    lemma_columns_push(p3, txt(caption));
    lemma_columns_push(p4, fg(Color::DarkGrey));
    lemma_columns_push(p5, txt(fill));
    lemma_columns_push(p6, txt("┐\r\n"@));
    lemma_columns_push(p7, PieceModel::Reset);
    assert(panel_top(title, width, color) =~= p8);
    let line = run('─', floor_sub(width, 2));
    lemma_width_run('─', floor_sub(width, 2));
    lemma_width_concat("└"@, line);
    lemma_width_concat("└"@ + line, "┘\r\n"@);
    let edge = "└"@ + line + "┘\r\n"@;
    let q2 = p1.push(txt(edge));
    lemma_columns_push(p1, txt(edge));
    lemma_columns_push(q2, PieceModel::Reset);
    assert(panel_bottom(width) =~= q2.push(PieceModel::Reset));
}

/// A row of a panel spans its width, where what is shown in it leaves room for the edges.
pub proof fn text_row_spans_the_width(
    width: nat,
    label: Seq<char>,
    value: Seq<char>,
    color: Color,
)
    requires
        width_of(truncated(labelled(label, value), floor_sub(width, 4))) + 3 <= width,
    ensures
        columns(panel_text(width, label, value, color)) == width + 2,
{
    lemma_edge_widths();
    let shown = truncated(labelled(label, value), floor_sub(width, 4));
    let end = row_end(width, width_of(shown) + 3);
    lemma_row_end_width(width, width_of(shown) + 3);
    let p0 = Seq::<PieceModel>::empty();
    let p1 = p0.push(fg(Color::DarkGrey));
    let p2 = p1.push(txt("│ "@));
    let p3 = p2.push(fg(color));
    let p4 = p3.push(txt(shown));
    let p5 = p4.push(fg(Color::DarkGrey));
    let p6 = p5.push(txt(end));
    lemma_columns_push(p0, fg(Color::DarkGrey));
    lemma_columns_push(p1, txt("│ "@));
    lemma_columns_push(p2, fg(color));
    lemma_columns_push(p3, txt(shown));
    lemma_columns_push(p4, fg(Color::DarkGrey));
    lemma_columns_push(p5, txt(end));
    lemma_columns_push(p6, PieceModel::Reset);
    assert(panel_text(width, label, value, color) =~= p6.push(PieceModel::Reset));
}

/// Coloured parts take up the columns of their texts.
proof fn lemma_part_pieces_columns(parts: Parts)
    ensures
        columns(part_pieces(parts)) == part_columns(parts),
    decreases parts.len(),
{
    if parts.len() > 0 {
        let init = part_pieces(parts.drop_last());
        lemma_part_pieces_columns(parts.drop_last());
        lemma_columns_push(init, fg(parts.last().1));
        lemma_columns_push(init.push(fg(parts.last().1)), txt(parts.last().0));
        assert(part_pieces(parts) =~= init.push(fg(parts.last().1)).push(txt(parts.last().0)));
    }
}

/// A row of coloured parts spans the width of its panel, where they leave room for the edges.
pub proof fn line_spans_the_width(width: nat, parts: Parts)
    requires
        part_columns(parts) + 3 <= width,
    ensures
        columns(panel_line(width, parts)) == width + 2,
{
    lemma_edge_widths();
    lemma_part_pieces_columns(parts);
    let end = row_end(width, part_columns(parts) + 3);
    lemma_row_end_width(width, part_columns(parts) + 3);
    let p0 = Seq::<PieceModel>::empty();
    let p1 = p0.push(fg(Color::DarkGrey));
    let p2 = p1.push(txt("│ "@));
    lemma_columns_push(p0, fg(Color::DarkGrey));
    lemma_columns_push(p1, txt("│ "@));
    lemma_columns_concat(p2, part_pieces(parts));
    let q = p2 + part_pieces(parts);
    let q1 = q.push(fg(Color::DarkGrey));
    let q2 = q1.push(txt(end));
    lemma_columns_push(q, fg(Color::DarkGrey));
    lemma_columns_push(q1, txt(end));
    lemma_columns_push(q2, PieceModel::Reset);
    assert(panel_line(width, parts) =~= q2.push(PieceModel::Reset));
}

/// A row of the playlist spans the width of its panel, where the name as it is shown leaves
/// room for marks and edges.
pub proof fn playlist_row_spans_the_width(
    name: Seq<char>,
    is_selected: bool,
    is_playing: bool,
    width: nat,
)
    requires
        ({
            let reserved = 2 + playing_mark(is_playing).len();
            width_of(truncated(name, floor_sub(floor_sub(width, 4), reserved))) + reserved + 4
                <= width
        }),
    ensures
        columns(playlist_row(name, is_selected, is_playing, width)) == width + 2,
{
    lemma_edge_widths();
    let inner = floor_sub(width, 4);
    let mark = playing_mark(is_playing);
    let reserved = 2 + mark.len();
    let shown = truncated(name, floor_sub(inner, reserved));
    let pad = run(' ', floor_sub(inner, reserved + width_of(shown)));
    lemma_width_run(' ', floor_sub(inner, reserved + width_of(shown)));
    assert(width_of(mark) == mark.len());
    let back = PieceModel::Background { r: 40, g: 44, b: 52 };
    let p0 = Seq::<PieceModel>::empty();
    let p1 = p0.push(fg(Color::DarkGrey));
    let p2 = p1.push(txt("│ "@));
    lemma_columns_push(p0, fg(Color::DarkGrey));
    lemma_columns_push(p1, txt("│ "@));
    let last = if is_selected {
        let a1 = p2.push(back);
        let a2 = a1.push(fg(Color::Cyan));
        let a3 = a2.push(txt("▶ "@));
        let a4 = a3.push(fg(Color::White));
        let a5 = a4.push(txt(shown));
        lemma_columns_push(p2, back);
        lemma_columns_push(a1, fg(Color::Cyan));
        lemma_columns_push(a2, txt("▶ "@));
        lemma_columns_push(a3, fg(Color::White));
        lemma_columns_push(a4, txt(shown));
        let a7 = if is_playing {
            lemma_columns_push(a5, fg(Color::Green));
            lemma_columns_push(a5.push(fg(Color::Green)), txt(mark));
            a5.push(fg(Color::Green)).push(txt(mark))
        } else {
            a5
        };
        lemma_columns_push(a7, txt(pad));
        lemma_columns_push(a7.push(txt(pad)), PieceModel::Reset);
        a7.push(txt(pad)).push(PieceModel::Reset)
    } else if is_playing {
        let a1 = p2.push(fg(Color::Green));
        let a2 = a1.push(txt("  "@));
        let a3 = a2.push(txt(shown));
        let a4 = a3.push(fg(Color::Green));
        let a5 = a4.push(txt(mark));
        lemma_columns_push(p2, fg(Color::Green));
        lemma_columns_push(a1, txt("  "@));
        lemma_columns_push(a2, txt(shown));
        lemma_columns_push(a3, fg(Color::Green));
        lemma_columns_push(a4, txt(mark));
        lemma_columns_push(a5, txt(pad));
        a5.push(txt(pad))
    } else {
        let a1 = p2.push(fg(Color::DarkGrey));
        let a2 = a1.push(txt("  "@));
        let a3 = a2.push(txt(shown));
        lemma_columns_push(p2, fg(Color::DarkGrey));
        lemma_columns_push(a1, txt("  "@));
        lemma_columns_push(a2, txt(shown));
        lemma_columns_push(a3, txt(pad));
        a3.push(txt(pad))
    };
    assert(columns(last) == width - 2);
    let e1 = last.push(fg(Color::DarkGrey));
    let e2 = e1.push(txt(" │\r\n"@));
    lemma_columns_push(last, fg(Color::DarkGrey));
    lemma_columns_push(e1, txt(" │\r\n"@));
    lemma_columns_push(e2, PieceModel::Reset);
    assert(playlist_row(name, is_selected, is_playing, width) =~= e2.push(PieceModel::Reset));
}

/// The meter stands between paddings that fill its panel, the right one as wide as the left
/// or one column wider.
pub proof fn meter_is_centered(inner_width: nat)
    requires
        inner_width >= METER_BAR_WIDTH,
    ensures
        left_padding(inner_width) + columns_of(bars_for(inner_width as int)) + right_padding(
            inner_width,
        ) == inner_width,
        left_padding(inner_width) <= right_padding(inner_width) <= left_padding(inner_width) + 1,
{
    bars_fit(inner_width as int);
}

/// What a bar shows in a row is as wide as a bar.
proof fn lemma_cell_columns(column: MeterColumn, row: int, color: Color, peak: Color)
    ensures
        columns(cell_pieces(column, row, color, peak)) == METER_BAR_WIDTH,
{
    let p0 = Seq::<PieceModel>::empty();
    if peak_shown(row, column) {
        let mark = txt(run('▀', METER_BAR_WIDTH as nat));
        lemma_width_run('▀', METER_BAR_WIDTH as nat);
        lemma_columns_push(p0, fg(peak));
        lemma_columns_push(p0.push(fg(peak)), mark);
        lemma_columns_push(p0.push(fg(peak)).push(mark), fg(color));
        assert(cell_pieces(column, row, color, peak) =~= p0.push(fg(peak)).push(mark).push(fg(color)));
    } else {
        let filling = segment(filled_eighths(row, column.level as int));
        let bar = txt(run(filling, METER_BAR_WIDTH as nat));
        lemma_width_run(filling, METER_BAR_WIDTH as nat);
        lemma_columns_push(p0, bar);
        assert(cell_pieces(column, row, color, peak) =~= p0.push(bar));
    }
}

/// What bars show in a row is as wide as the bars and the gaps behind them.
proof fn lemma_cells_columns(
    bars: Seq<MeterColumn>,
    count: nat,
    row: int,
    color: Color,
    peak: Color,
)
    requires
        count <= bars.len(),
    ensures
        columns(cells_pieces(bars, count, row, color, peak)) == (if count < bars.len() {
            count * (METER_BAR_WIDTH + METER_BAR_GAP)
        } else {
            columns_of(count as int)
        }),
    decreases count,
{
    if count > 0 {
        let before = cells_pieces(bars, (count - 1) as nat, row, color, peak);
        let cell = cell_pieces(bars[count - 1], row, color, peak);
        lemma_cells_columns(bars, (count - 1) as nat, row, color, peak);
        lemma_cell_columns(bars[count - 1], row, color, peak);
        lemma_columns_concat(before, cell);
        if count < bars.len() {
            let gap = txt(run(' ', METER_BAR_GAP as nat));
            lemma_width_run(' ', METER_BAR_GAP as nat);
            lemma_columns_push(before + cell, gap);
            assert(cells_pieces(bars, count, row, color, peak) =~= (before + cell).push(gap));
        } else {
            assert(cells_pieces(bars, count, row, color, peak) =~= before + cell);
        }
    }
}

/// A row of the meter with as many bars as there is room for spans the width of its panel.
pub proof fn meter_row_spans_the_width(
    bars: Seq<MeterColumn>,
    row: int,
    color: Color,
    peak: Color,
    inner_width: nat,
)
    requires
        inner_width >= METER_BAR_WIDTH,
        bars.len() == bars_for(inner_width as int),
    ensures
        columns(
            meter_row(
                bars,
                row,
                color,
                peak,
                left_padding(inner_width),
                right_padding(inner_width),
            ),
        ) == inner_width + 6,
{
    lemma_edge_widths();
    meter_is_centered(inner_width);
    let (left, right) = (left_padding(inner_width), right_padding(inner_width));
    let cells = cells_pieces(bars, bars.len(), row, color, peak);
    lemma_cells_columns(bars, bars.len(), row, color, peak);
    let start = txt("│ "@ + run(' ', left));
    let end = txt(run(' ', right) + " │\r\n"@);
    lemma_width_run(' ', left);
    lemma_width_run(' ', right);
    lemma_width_concat("│ "@, run(' ', left));
    lemma_width_concat(run(' ', right), " │\r\n"@);
    let p0 = Seq::<PieceModel>::empty();
    let p1 = p0.push(fg(Color::DarkGrey));
    let p2 = p1.push(start);
    let p3 = p2.push(fg(color));
    lemma_columns_push(p0, fg(Color::DarkGrey));
    lemma_columns_push(p1, start);
    lemma_columns_push(p2, fg(color));
    lemma_columns_concat(p3, cells);
    let q = p3 + cells;
    let q1 = q.push(PieceModel::Reset);
    let q2 = q1.push(fg(Color::DarkGrey));
    lemma_columns_push(q, PieceModel::Reset);
    lemma_columns_push(q1, fg(Color::DarkGrey));
    lemma_columns_push(q2, end);
    assert(meter_row(bars, row, color, peak, left, right) =~= q2.push(end));
}

/// The selected track is among the tracks that are shown, and no more are shown than there
/// is room for.
pub proof fn selected_track_is_shown(
    indices: Seq<usize>,
    current_index: usize,
    visible_rows: nat,
)
    requires
        visible_rows > 0,
    ensures
        position_of(indices, current_index) matches Some(position) ==> first_shown(
            indices,
            current_index,
            visible_rows,
        ) <= position < shown_end(indices, current_index, visible_rows),
        shown_end(indices, current_index, visible_rows) <= first_shown(
            indices,
            current_index,
            visible_rows,
        ) + visible_rows,
{
    lemma_position_from(indices, current_index, 0);
}

} // verus!
