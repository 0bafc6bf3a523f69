//! What the terminal shows of a frame: every character with the colours that it has.
use vstd::prelude::*;
use crate::meter::{
    bars_for, columns_of, filled_eighths, peak_color, segment, METER_BAR_GAP, METER_BAR_WIDTH,
};
use crate::mode::{RepeatMode, VisualizerTheme};
use crate::panels::{
    bar_columns, cell_pieces, cells_pieces, first_shown, header, labelled, left_padding, meter_row,
    mode_parts, panel_bottom, panel_line, panel_text, panel_top, part_columns, part_pieces, parts_of,
    peak_shown, playing_name, playback_panel, playing_mark, playlist_panel, playlist_row,
    playlist_rows, progress_bar, right_padding, row_end, rows_above, rows_for, shown_end,
    spectrum_panel, status_parts, time_row, title_text, track_rows, visualizer, width_for,
    MeterColumn, Parts, VolumeGauge,
};
use crate::playlist::position_of;
use crate::screen::{screen, Room, Sound};
use crate::session::Session;
use crate::style::{fg, txt, Color, PieceModel};
use crate::text::{decimal, floor_sub, run, truncated, width_of};
use crate::time::progress_text;
use crate::track::{duration_of, name_of, TrackFile, TrackMetadata};

verus! {

/// The colours that text has: its own, and the one that it stands on.
pub type Ink = (Option<Color>, Option<(u8, u8, u8)>);

/// A character on the screen, and its colours.
pub type Cell = (char, Ink);

/// The colours that the terminal started with.
pub open spec fn no_ink() -> Ink {
    (None, None)
}

/// A colour on the ground that the terminal started with.
pub open spec fn ink(color: Color) -> Ink {
    (Some(color), None)
}

/// A colour on the ground of the selected track.
pub open spec fn selected_ink(color: Color) -> Ink {
    (Some(color), Some((40, 44, 52)))
}

/// The colours behind a piece.
pub open spec fn dip(before: Ink, piece: PieceModel) -> Ink {
    match piece {
        PieceModel::Foreground(color) => (Some(color), before.1),
        PieceModel::Background { r, g, b } => (before.0, Some((r, g, b))),
        PieceModel::Reset => no_ink(),
        PieceModel::Text(_) => before,
    }
}

/// The colours behind pieces.
pub open spec fn ink_after(start: Ink, pieces: Seq<PieceModel>) -> Ink
    decreases pieces.len(),
{
    if pieces.len() == 0 {
        start
    } else {
        dip(ink_after(start, pieces.drop_last()), pieces.last())
    }
}

/// A text in one ink.
pub open spec fn inked(text: Seq<char>, colors: Ink) -> Seq<Cell> {
    text.map_values(|c: char| (c, colors))
}

/// What the terminal shows of a piece.
pub open spec fn stroke(before: Ink, piece: PieceModel) -> Seq<Cell> {
    match piece {
        PieceModel::Text(text) => inked(text, before),
        _ => Seq::empty(),
    }
}

/// What the terminal shows of pieces.
pub open spec fn painted(start: Ink, pieces: Seq<PieceModel>) -> Seq<Cell>
    decreases pieces.len(),
{
    if pieces.len() == 0 {
        Seq::empty()
    } else {
        painted(start, pieces.drop_last()) + stroke(
            ink_after(start, pieces.drop_last()),
            pieces.last(),
        )
    }
}

/// A text in one ink is its parts in that ink.
proof fn lemma_inked_concat(a: Seq<char>, b: Seq<char>, colors: Ink)
    ensures
        inked(a + b, colors) == inked(a, colors) + inked(b, colors),
{
    assert(inked(a + b, colors) =~= inked(a, colors) + inked(b, colors));
}

/// One more piece adds what is shown of it.
proof fn lemma_paint_push(start: Ink, pieces: Seq<PieceModel>, piece: PieceModel)
    ensures
        painted(start, pieces.push(piece)) == painted(start, pieces) + stroke(
            ink_after(start, pieces),
            piece,
        ),
        ink_after(start, pieces.push(piece)) == dip(ink_after(start, pieces), piece),
{
    assert(pieces.push(piece).drop_last() =~= pieces);
}

/// Pieces behind others are shown in the colours that those leave.
pub proof fn paint_goes_on(start: Ink, a: Seq<PieceModel>, b: Seq<PieceModel>)
    ensures
        painted(start, a + b) == painted(start, a) + painted(ink_after(start, a), b),
        ink_after(start, a + b) == ink_after(ink_after(start, a), b),
    decreases b.len(),
{
    if b.len() == 0 {
        assert(a + b =~= a);
        assert(painted(start, a) + painted(ink_after(start, a), b) =~= painted(start, a));
    } else {
        paint_goes_on(start, a, b.drop_last());
        assert((a + b).drop_last() =~= a + b.drop_last());
        assert((a + b).last() == b.last());
        assert(painted(start, a + b) =~= painted(start, a) + painted(ink_after(start, a), b));
    }
}

/// The header is a grey frame with the name of the program in green and its keys in white.
pub proof fn header_is_shown(start: Ink, width: nat)
    requires
        start.1 is None,
    ensures
        ({
            let title = " music_player "@;
            let keys = " / search  r repeat  s shuffle  t theme  Enter play  q quit "@;
            painted(start, header(width)) == inked("┌"@, ink(Color::DarkGrey)) + inked(
                title,
                ink(Color::Green),
            ) + inked(
                run('─', floor_sub(width, 2 + title.len() + keys.len())),
                ink(Color::DarkGrey),
            ) + inked(keys, ink(Color::White)) + inked("┐\r\n"@, ink(Color::DarkGrey))
        }),
        ink_after(start, header(width)) == no_ink(),
{
    let title = " music_player "@;
    let keys = " / search  r repeat  s shuffle  t theme  Enter play  q quit "@;
    let fill = run('─', floor_sub(width, 2 + title.len() + keys.len()));
    let p0 = Seq::<PieceModel>::empty();
    lemma_paint_push(start, p0, fg(Color::DarkGrey));
    let p1 = p0.push(fg(Color::DarkGrey));
    lemma_paint_push(start, p1, txt("┌"@));
    let p2 = p1.push(txt("┌"@));
    lemma_paint_push(start, p2, fg(Color::Green));
    let p3 = p2.push(fg(Color::Green));
    lemma_paint_push(start, p3, txt(title));
    let p4 = p3.push(txt(title));
    lemma_paint_push(start, p4, fg(Color::DarkGrey));
    let p5 = p4.push(fg(Color::DarkGrey));
    lemma_paint_push(start, p5, txt(fill));
    let p6 = p5.push(txt(fill));
    lemma_paint_push(start, p6, fg(Color::White));
    let p7 = p6.push(fg(Color::White));
    lemma_paint_push(start, p7, txt(keys));
    let p8 = p7.push(txt(keys));
    lemma_paint_push(start, p8, fg(Color::DarkGrey));
    let p9 = p8.push(fg(Color::DarkGrey));
    lemma_paint_push(start, p9, txt("┐\r\n"@));
    let p10 = p9.push(txt("┐\r\n"@));
    lemma_paint_push(start, p10, PieceModel::Reset);
    let p11 = p10.push(PieceModel::Reset);
    assert(header(width) =~= p11);
    assert(painted(start, p11) =~= inked("┌"@, ink(Color::DarkGrey)) + inked(
        title,
        ink(Color::Green),
    ) + inked(fill, ink(Color::DarkGrey)) + inked(keys, ink(Color::White)) + inked(
        "┐\r\n"@,
        ink(Color::DarkGrey),
    ));
}

/// The upper edge of a panel is grey, with the title, cut to the room that there is, in its
/// colour between spaces.
pub proof fn upper_edge_is_shown(start: Ink, title: Seq<char>, width: nat, color: Color)
    requires
        start.1 is None,
    ensures
        ({
            let shown = truncated(title, floor_sub(width, 4));
            painted(start, panel_top(title, width, color)) == inked("┌"@, ink(Color::DarkGrey))
                + inked(" "@ + shown + " "@, ink(color)) + inked(
                run('─', floor_sub(width, shown.len() + 4)) + "┐\r\n"@,
                ink(Color::DarkGrey),
            )
        }),
        ink_after(start, panel_top(title, width, color)) == no_ink(),
{
    let shown = truncated(title, floor_sub(width, 4));
    let caption = " "@ + shown + " "@;
    let fill = run('─', floor_sub(width, shown.len() + 4));
    let p0 = Seq::<PieceModel>::empty();
    lemma_paint_push(start, p0, fg(Color::DarkGrey));
    let p1 = p0.push(fg(Color::DarkGrey));
    lemma_paint_push(start, p1, txt("┌"@));
    let p2 = p1.push(txt("┌"@));
    lemma_paint_push(start, p2, fg(color));
    let p3 = p2.push(fg(color));
    lemma_paint_push(start, p3, txt(caption));
    let p4 = p3.push(txt(caption));
    lemma_paint_push(start, p4, fg(Color::DarkGrey));
    let p5 = p4.push(fg(Color::DarkGrey));
    lemma_paint_push(start, p5, txt(fill));
    let p6 = p5.push(txt(fill));
    lemma_paint_push(start, p6, txt("┐\r\n"@));
    let p7 = p6.push(txt("┐\r\n"@));
    lemma_paint_push(start, p7, PieceModel::Reset);
    let p8 = p7.push(PieceModel::Reset);
    assert(panel_top(title, width, color) =~= p8);
    lemma_inked_concat(fill, "┐\r\n"@, ink(Color::DarkGrey));
    assert(painted(start, p8) =~= inked("┌"@, ink(Color::DarkGrey)) + inked(
        caption,
        ink(color),
    ) + inked(fill + "┐\r\n"@, ink(Color::DarkGrey)));
}

/// The lower edge of a panel is grey.
pub proof fn lower_edge_is_shown(start: Ink, width: nat)
    requires
        start.1 is None,
    ensures
        painted(start, panel_bottom(width)) == inked(
            "└"@ + run('─', floor_sub(width, 2)) + "┘\r\n"@,
            ink(Color::DarkGrey),
        ),
        ink_after(start, panel_bottom(width)) == no_ink(),
{
    let edge = "└"@ + run('─', floor_sub(width, 2)) + "┘\r\n"@;
    let p0 = Seq::<PieceModel>::empty();
    lemma_paint_push(start, p0, fg(Color::DarkGrey));
    let p1 = p0.push(fg(Color::DarkGrey));
    lemma_paint_push(start, p1, txt(edge));
    let p2 = p1.push(txt(edge));
    lemma_paint_push(start, p2, PieceModel::Reset);
    let p3 = p2.push(PieceModel::Reset);
    assert(panel_bottom(width) =~= p3);
    assert(painted(start, p3) =~= inked(edge, ink(Color::DarkGrey)));
}

/// A row of a panel shows its label and its value, cut to the room that there is, in one
/// colour between grey edges.
pub proof fn text_row_is_shown(
    start: Ink,
    width: nat,
    label: Seq<char>,
    value: Seq<char>,
    color: Color,
)
    requires
        start.1 is None,
    ensures
        ({
            let shown = truncated(
                if label.len() == 0 {
                    value
                } else {
                    label + ": "@ + value
                },
                floor_sub(width, 4),
            );
            painted(start, panel_text(width, label, value, color)) == inked(
                "│ "@,
                ink(Color::DarkGrey),
            ) + inked(shown, ink(color)) + inked(
                run(' ', floor_sub(width, width_of(shown) + 3)) + "│\r\n"@,
                ink(Color::DarkGrey),
            )
        }),
        ink_after(start, panel_text(width, label, value, color)) == no_ink(),
{
    let shown = truncated(labelled(label, value), floor_sub(width, 4));
    let end = row_end(width, width_of(shown) + 3);
    let p0 = Seq::<PieceModel>::empty();
    lemma_paint_push(start, p0, fg(Color::DarkGrey));
    let p1 = p0.push(fg(Color::DarkGrey));
    lemma_paint_push(start, p1, txt("│ "@));
    let p2 = p1.push(txt("│ "@));
    lemma_paint_push(start, p2, fg(color));
    let p3 = p2.push(fg(color));
    lemma_paint_push(start, p3, txt(shown));
    let p4 = p3.push(txt(shown));
    lemma_paint_push(start, p4, fg(Color::DarkGrey));
    let p5 = p4.push(fg(Color::DarkGrey));
    lemma_paint_push(start, p5, txt(end));
    let p6 = p5.push(txt(end));
    lemma_paint_push(start, p6, PieceModel::Reset);
    let p7 = p6.push(PieceModel::Reset);
    assert(panel_text(width, label, value, color) =~= p7);
    assert(painted(start, p7) =~= inked("│ "@, ink(Color::DarkGrey)) + inked(shown, ink(color))
        + inked(end, ink(Color::DarkGrey)));
}

/// What is shown of coloured parts: each in its colour, one behind the other.
pub open spec fn parts_inked(parts: Parts) -> Seq<Cell>
    decreases parts.len(),
{
    if parts.len() == 0 {
        Seq::empty()
    } else {
        inked(parts[0].0, ink(parts[0].1)) + parts_inked(parts.drop_first())
    }
}

/// One more part is shown behind the others.
proof fn lemma_parts_inked_push(parts: Parts, part: (Seq<char>, Color))
    ensures
        parts_inked(parts.push(part)) == parts_inked(parts) + inked(part.0, ink(part.1)),
    decreases parts.len(),
{
    reveal_with_fuel(parts_inked, 2);
    if parts.len() == 0 {
        assert(parts.push(part).drop_first() =~= parts);
        assert(parts_inked(parts.push(part)) =~= parts_inked(parts) + inked(part.0, ink(part.1)));
    } else {
        assert(parts.push(part).drop_first() =~= parts.drop_first().push(part));
        lemma_parts_inked_push(parts.drop_first(), part);
        assert(parts_inked(parts.push(part)) =~= parts_inked(parts) + inked(part.0, ink(part.1)));
    }
}

/// Parts are shown in their colours.
proof fn lemma_part_pieces_painted(start: Ink, parts: Parts)
    requires
        start.1 is None,
    ensures
        painted(start, part_pieces(parts)) == parts_inked(parts),
        ink_after(start, part_pieces(parts)).1 is None,
    decreases parts.len(),
{
    if parts.len() > 0 {
        let init = parts.drop_last();
        let (text, color) = parts.last();
        lemma_part_pieces_painted(start, init);
        lemma_paint_push(start, part_pieces(init), fg(color));
        lemma_paint_push(start, part_pieces(init).push(fg(color)), txt(text));
        assert(part_pieces(parts) =~= part_pieces(init).push(fg(color)).push(txt(text)));
        lemma_parts_inked_push(init, parts.last());
        assert(init.push(parts.last()) =~= parts);
        assert(painted(start, part_pieces(parts)) =~= parts_inked(parts));
    }
}

/// The columns of parts add up.
pub proof fn part_columns_add_up(parts: Parts, part: (Seq<char>, Color))
    ensures
        part_columns(Seq::empty()) == 0,
        part_columns(parts.push(part)) == part_columns(parts) + width_of(part.0),
{
    assert(parts.push(part).drop_last() =~= parts);
}

/// A row of coloured parts shows them between grey edges.
pub proof fn line_is_shown(start: Ink, width: nat, parts: Parts)
    requires
        start.1 is None,
    ensures
        painted(start, panel_line(width, parts)) == inked("│ "@, ink(Color::DarkGrey))
            + parts_inked(parts) + inked(
            run(' ', floor_sub(width, part_columns(parts) + 3)) + "│\r\n"@,
            ink(Color::DarkGrey),
        ),
        ink_after(start, panel_line(width, parts)) == no_ink(),
{
    let end = row_end(width, part_columns(parts) + 3);
    let p0 = Seq::<PieceModel>::empty();
    lemma_paint_push(start, p0, fg(Color::DarkGrey));
    let p1 = p0.push(fg(Color::DarkGrey));
    lemma_paint_push(start, p1, txt("│ "@));
    let p2 = p1.push(txt("│ "@));
    assert(seq![fg(Color::DarkGrey), txt("│ "@)] =~= p2);
    paint_goes_on(start, p2, part_pieces(parts));
    lemma_part_pieces_painted(ink_after(start, p2), parts);
    let q0 = p2 + part_pieces(parts);
    lemma_paint_push(start, q0, fg(Color::DarkGrey));
    let q1 = q0.push(fg(Color::DarkGrey));
    lemma_paint_push(start, q1, txt(end));
    let q2 = q1.push(txt(end));
    lemma_paint_push(start, q2, PieceModel::Reset);
    let q3 = q2.push(PieceModel::Reset);
    assert(panel_line(width, parts) =~= q3);
    assert(painted(start, q3) =~= inked("│ "@, ink(Color::DarkGrey)) + parts_inked(parts) + inked(
        end,
        ink(Color::DarkGrey),
    ));
}

/// The progress bar is as wide as it may be: filled in turquoise up to a white knob, and
/// empty in grey behind it, drawn through while the track is analysed. Where nothing is
/// filled the knob is a piece of the bar, and there is no bar of less than five columns.
pub proof fn progress_bar_is_shown(start: Ink, available: nat, filled: nat, is_loading: bool)
    requires
        start.1 is None,
    ensures
        available <= 4 ==> painted(start, progress_bar(available, filled, is_loading)).len() == 0
            && ink_after(start, progress_bar(available, filled, is_loading)) == start,
        available > 4 ==> painted(start, progress_bar(available, filled, is_loading)) == inked(
            run('━', floor_sub(filled, 1)),
            ink(Color::Rgb { r: 0, g: 245, b: 212 }),
        ) + inked(
            seq![if filled > 0 {
                '●'
            } else {
                '━'
            }],
            ink(Color::White),
        ) + inked(
            run(
                if is_loading {
                    '━'
                } else {
                    '─'
                },
                floor_sub(available, filled),
            ),
            ink(Color::DarkGrey),
        ) && ink_after(start, progress_bar(available, filled, is_loading)).1 is None,
        available > 4 && 1 <= filled <= available ==> painted(
            start,
            progress_bar(available, filled, is_loading),
        ).len() == available,
{
    if available > 4 {
        reveal_strlit("●");
        reveal_strlit("━");
        let turquoise = Color::Rgb { r: 0, g: 245, b: 212 };
        let knob = if filled > 0 { "●"@ } else { "━"@ };
        let dot = seq![if filled > 0 { '●' } else { '━' }];
        assert(knob =~= dot);
        let head = run('━', floor_sub(filled, 1));
        let tail = run(if is_loading { '━' } else { '─' }, floor_sub(available, filled));
        let p0 = Seq::<PieceModel>::empty();
        lemma_paint_push(start, p0, fg(turquoise));
        let p1 = p0.push(fg(turquoise));
        lemma_paint_push(start, p1, txt(head));
        let p2 = p1.push(txt(head));
        lemma_paint_push(start, p2, fg(Color::White));
        let p3 = p2.push(fg(Color::White));
        lemma_paint_push(start, p3, txt(knob));
        let p4 = p3.push(txt(knob));
        lemma_paint_push(start, p4, fg(Color::DarkGrey));
        let p5 = p4.push(fg(Color::DarkGrey));
        lemma_paint_push(start, p5, txt(tail));
        let p6 = p5.push(txt(tail));
        assert(progress_bar(available, filled, is_loading) =~= p6);
        assert(painted(start, p6) =~= inked(head, ink(turquoise)) + inked(dot, ink(Color::White))
            + inked(tail, ink(Color::DarkGrey)));
        assert(painted(start, p6).len() == head.len() + 1 + tail.len());
    }
}

/// The row that shows the position has a green label, the progress bar in the columns that
/// are left, and the position in white.
pub proof fn time_row_is_shown(
    start: Ink,
    width: nat,
    time: Seq<char>,
    filled: nat,
    is_loading: bool,
)
    requires
        start.1 is None,
    ensures
        ({
            let available = floor_sub(width, 11 + time.len());
            painted(start, time_row(width, time, filled, is_loading)) == inked(
                "│ "@,
                ink(Color::DarkGrey),
            ) + inked("time: "@, ink(Color::Green)) + painted(
                ink(Color::Green),
                progress_bar(available, filled, is_loading),
            ) + inked(" "@ + time, ink(Color::White)) + inked(
                run(' ', floor_sub(width, 11 + available + time.len())) + "│\r\n"@,
                ink(Color::DarkGrey),
            )
        }),
        ink_after(start, time_row(width, time, filled, is_loading)) == no_ink(),
{
    reveal_strlit("time: ");
    let available = bar_columns(width, time);
    assert(available == floor_sub(width, 11 + time.len()));
    let bar = progress_bar(available, filled, is_loading);
    let end = row_end(width, 4 + "time: "@.len() + available + 1 + time.len());
    let p0 = Seq::<PieceModel>::empty();
    lemma_paint_push(start, p0, fg(Color::DarkGrey));
    let p1 = p0.push(fg(Color::DarkGrey));
    lemma_paint_push(start, p1, txt("│ "@));
    let p2 = p1.push(txt("│ "@));
    lemma_paint_push(start, p2, fg(Color::Green));
    let p3 = p2.push(fg(Color::Green));
    lemma_paint_push(start, p3, txt("time: "@));
    let p4 = p3.push(txt("time: "@));
    assert(seq![fg(Color::DarkGrey), txt("│ "@), fg(Color::Green), txt("time: "@)] =~= p4);
    paint_goes_on(start, p4, bar);
    progress_bar_is_shown(ink(Color::Green), available, filled, is_loading);
    let q0 = p4 + bar;
    lemma_paint_push(start, q0, fg(Color::White));
    let q1 = q0.push(fg(Color::White));
    lemma_paint_push(start, q1, txt(" "@ + time));
    let q2 = q1.push(txt(" "@ + time));
    lemma_paint_push(start, q2, fg(Color::DarkGrey));
    let q3 = q2.push(fg(Color::DarkGrey));
    lemma_paint_push(start, q3, txt(end));
    let q4 = q3.push(txt(end));
    lemma_paint_push(start, q4, PieceModel::Reset);
    let q5 = q4.push(PieceModel::Reset);
    assert(time_row(width, time, filled, is_loading) =~= q5);
    assert(painted(start, q5) =~= inked("│ "@, ink(Color::DarkGrey)) + inked(
        "time: "@,
        ink(Color::Green),
    ) + painted(ink(Color::Green), bar) + inked(" "@ + time, ink(Color::White)) + inked(
        end,
        ink(Color::DarkGrey),
    ));
}

/// A track of the playlist stands between grey edges, its name cut to the room that there
/// is: the selected one behind an arrow and on a ground of its own, the one that plays in
/// green, with a mark behind it.
#[verifier::rlimit(60)]
pub proof fn playlist_row_is_shown(
    start: Ink,
    name: Seq<char>,
    is_selected: bool,
    is_playing: bool,
    width: nat,
)
    requires
        start.1 is None,
    ensures
        ({
            let inner = floor_sub(width, 4);
            let mark = if is_playing {
                " [PLAYING]"@
            } else {
                Seq::empty()
            };
            let shown = truncated(name, floor_sub(inner, 2 + mark.len()));
            let padding = run(' ', floor_sub(inner, 2 + mark.len() + width_of(shown)));
            let content = if is_selected {
                inked("▶ "@, selected_ink(Color::Cyan)) + inked(shown, selected_ink(Color::White))
                    + inked(mark, selected_ink(Color::Green)) + inked(
                    padding,
                    selected_ink(
                        if is_playing {
                            Color::Green
                        } else {
                            Color::White
                        },
                    ),
                )
            } else {
                inked(
                    "  "@ + shown + mark + padding,
                    ink(
                        if is_playing {
                            Color::Green
                        } else {
                            Color::DarkGrey
                        },
                    ),
                )
            };
            painted(start, playlist_row(name, is_selected, is_playing, width)) == inked(
                "│ "@,
                ink(Color::DarkGrey),
            ) + content + inked(" │\r\n"@, ink(Color::DarkGrey))
        }),
        ink_after(start, playlist_row(name, is_selected, is_playing, width)) == no_ink(),
{
    let inner = floor_sub(width, 4);
    let mark = playing_mark(is_playing);
    let shown = truncated(name, floor_sub(inner, 2 + mark.len()));
    let padding = run(' ', floor_sub(inner, 2 + mark.len() + width_of(shown)));
    let ground = PieceModel::Background { r: 40, g: 44, b: 52 };
    let grey = ink(Color::DarkGrey);
    let row = playlist_row(name, is_selected, is_playing, width);
    let line = if is_playing { ink(Color::Green) } else { grey };
    lemma_inked_concat("  "@, shown, line);
    lemma_inked_concat("  "@ + shown, mark, line);
    lemma_inked_concat("  "@ + shown + mark, padding, line);
    if !is_playing {
        assert(inked(mark, line) =~= Seq::<Cell>::empty());
        assert(inked(mark, selected_ink(Color::Green)) =~= Seq::<Cell>::empty());
    }
    let p0 = Seq::<PieceModel>::empty();
    lemma_paint_push(start, p0, fg(Color::DarkGrey));
    let p1 = p0.push(fg(Color::DarkGrey));
    lemma_paint_push(start, p1, txt("│ "@));
    let p2 = p1.push(txt("│ "@));
    assert(seq![fg(Color::DarkGrey), txt("│ "@)] =~= p2);
    if is_selected {
        if is_playing {
            lemma_paint_push(start, p2, ground);
            let q1 = p2.push(ground);
            lemma_paint_push(start, q1, fg(Color::Cyan));
            let q2 = q1.push(fg(Color::Cyan));
            lemma_paint_push(start, q2, txt("▶ "@));
            let q3 = q2.push(txt("▶ "@));
            lemma_paint_push(start, q3, fg(Color::White));
            let q4 = q3.push(fg(Color::White));
            lemma_paint_push(start, q4, txt(shown));
            let q5 = q4.push(txt(shown));
            lemma_paint_push(start, q5, fg(Color::Green));
            let q6 = q5.push(fg(Color::Green));
            lemma_paint_push(start, q6, txt(mark));
            let q7 = q6.push(txt(mark));
            lemma_paint_push(start, q7, txt(padding));
            let q8 = q7.push(txt(padding));
            lemma_paint_push(start, q8, PieceModel::Reset);
            let q9 = q8.push(PieceModel::Reset);
            lemma_paint_push(start, q9, fg(Color::DarkGrey));
            let q10 = q9.push(fg(Color::DarkGrey));
            lemma_paint_push(start, q10, txt(" │\r\n"@));
            let q11 = q10.push(txt(" │\r\n"@));
            lemma_paint_push(start, q11, PieceModel::Reset);
            let q12 = q11.push(PieceModel::Reset);
            assert(row =~= q12);
            assert(painted(start, q12) =~= inked("│ "@, grey) + (inked("▶ "@, selected_ink(Color::Cyan)) + inked(shown, selected_ink(Color::White)) + inked(mark, selected_ink(Color::Green)) + inked(padding, selected_ink(Color::Green))) + inked(" │\r\n"@, grey));
        } else {
            lemma_paint_push(start, p2, ground);
            let q1 = p2.push(ground);
            lemma_paint_push(start, q1, fg(Color::Cyan));
            let q2 = q1.push(fg(Color::Cyan));
            lemma_paint_push(start, q2, txt("▶ "@));
            let q3 = q2.push(txt("▶ "@));
            lemma_paint_push(start, q3, fg(Color::White));
            let q4 = q3.push(fg(Color::White));
            lemma_paint_push(start, q4, txt(shown));
            let q5 = q4.push(txt(shown));
            lemma_paint_push(start, q5, txt(padding));
            let q6 = q5.push(txt(padding));
            lemma_paint_push(start, q6, PieceModel::Reset);
            let q7 = q6.push(PieceModel::Reset);
            lemma_paint_push(start, q7, fg(Color::DarkGrey));
            let q8 = q7.push(fg(Color::DarkGrey));
            lemma_paint_push(start, q8, txt(" │\r\n"@));
            let q9 = q8.push(txt(" │\r\n"@));
            lemma_paint_push(start, q9, PieceModel::Reset);
            let q10 = q9.push(PieceModel::Reset);
            assert(row =~= q10);
            assert(painted(start, q10) =~= inked("│ "@, grey) + (inked("▶ "@, selected_ink(Color::Cyan)) + inked(shown, selected_ink(Color::White)) + inked(mark, selected_ink(Color::Green)) + inked(padding, selected_ink(Color::White))) + inked(" │\r\n"@, grey));
        }
    } else if is_playing {
        lemma_paint_push(start, p2, fg(Color::Green));
        let q1 = p2.push(fg(Color::Green));
        lemma_paint_push(start, q1, txt("  "@));
        let q2 = q1.push(txt("  "@));
        lemma_paint_push(start, q2, txt(shown));
        let q3 = q2.push(txt(shown));
        lemma_paint_push(start, q3, fg(Color::Green));
        let q4 = q3.push(fg(Color::Green));
        lemma_paint_push(start, q4, txt(mark));
        let q5 = q4.push(txt(mark));
        lemma_paint_push(start, q5, txt(padding));
        let q6 = q5.push(txt(padding));
        lemma_paint_push(start, q6, fg(Color::DarkGrey));
        let q7 = q6.push(fg(Color::DarkGrey));
        lemma_paint_push(start, q7, txt(" │\r\n"@));
        let q8 = q7.push(txt(" │\r\n"@));
        lemma_paint_push(start, q8, PieceModel::Reset);
        let q9 = q8.push(PieceModel::Reset);
        assert(row =~= q9);
        assert(painted(start, q9) =~= inked("│ "@, grey) + inked("  "@ + shown + mark + padding, ink(Color::Green)) + inked(" │\r\n"@, grey));
    } else {
        lemma_paint_push(start, p2, fg(Color::DarkGrey));
        let q1 = p2.push(fg(Color::DarkGrey));
        lemma_paint_push(start, q1, txt("  "@));
        let q2 = q1.push(txt("  "@));
        lemma_paint_push(start, q2, txt(shown));
        let q3 = q2.push(txt(shown));
        lemma_paint_push(start, q3, txt(padding));
        let q4 = q3.push(txt(padding));
        lemma_paint_push(start, q4, fg(Color::DarkGrey));
        let q5 = q4.push(fg(Color::DarkGrey));
        lemma_paint_push(start, q5, txt(" │\r\n"@));
        let q6 = q5.push(txt(" │\r\n"@));
        lemma_paint_push(start, q6, PieceModel::Reset);
        let q7 = q6.push(PieceModel::Reset);
        assert(row =~= q7);
        assert(painted(start, q7) =~= inked("│ "@, grey) + inked("  "@ + shown + mark + padding, grey) + inked(" │\r\n"@, grey));
    }
}

/// What bars show in one row at column `x` of the meter: two columns of each bar and a gap
/// behind it; the mark at its peak, or as much of the bar as is in the row.
pub open spec fn bar_cell(
    bars: Seq<MeterColumn>,
    row: int,
    color: Color,
    peak: Color,
    x: int,
) -> Cell {
    let bar = bars[x / 3];
    if x % 3 == 2 {
        (' ', ink(color))
    } else if bar.peak_row == row && bar.stands_out {
        ('▀', ink(peak))
    } else {
        (segment(filled_eighths(row, bar.level as int)), ink(color))
    }
}

/// What bars show in one row in the first `count` columns of the meter.
pub open spec fn bar_cells(
    bars: Seq<MeterColumn>,
    row: int,
    color: Color,
    peak: Color,
    count: nat,
) -> Seq<Cell> {
    Seq::new(count, |x: int| bar_cell(bars, row, color, peak, x))
}

/// What the first bars show in one row.
proof fn lemma_cells_painted(
    bars: Seq<MeterColumn>,
    count: nat,
    row: int,
    color: Color,
    peak: Color,
)
    requires
        count <= bars.len(),
    ensures
        painted(ink(color), cells_pieces(bars, count, row, color, peak)) == bar_cells(
            bars,
            row,
            color,
            peak,
            if count == 0 || count < bars.len() {
                3 * count
            } else {
                (3 * count - 1) as nat
            },
        ),
        ink_after(ink(color), cells_pieces(bars, count, row, color, peak)) == ink(color),
    decreases count,
{
    let start = ink(color);
    if count == 0 {
        assert(bar_cells(bars, row, color, peak, 0) =~= Seq::<Cell>::empty());
    } else {
        let k = count - 1;
        let before = cells_pieces(bars, k as nat, row, color, peak);
        let bar = bars[k];
        let cell = cell_pieces(bar, row, color, peak);
        lemma_cells_painted(bars, k as nat, row, color, peak);
        paint_goes_on(start, before, cell);
        let p0 = Seq::<PieceModel>::empty();
        let shown = if peak_shown(row, bar) {
            ('▀', ink(peak))
        } else {
            (segment(filled_eighths(row, bar.level as int)), ink(color))
        };
        if peak_shown(row, bar) {
            let mark = txt(run('▀', METER_BAR_WIDTH as nat));
            lemma_paint_push(start, p0, fg(peak));
            lemma_paint_push(start, p0.push(fg(peak)), mark);
            lemma_paint_push(start, p0.push(fg(peak)).push(mark), fg(color));
            assert(cell =~= p0.push(fg(peak)).push(mark).push(fg(color)));
        } else {
            let piece = txt(
                run(segment(filled_eighths(row, bar.level as int)), METER_BAR_WIDTH as nat),
            );
            lemma_paint_push(start, p0, piece);
            assert(cell =~= p0.push(piece));
        }
        assert(painted(start, cell) =~= seq![shown, shown]);
        let n = 3 * k;
        assert(bar_cell(bars, row, color, peak, n) == shown);
        assert(bar_cell(bars, row, color, peak, n + 1) == shown);
        assert(bar_cell(bars, row, color, peak, n + 2) == (' ', ink(color)));
        let both = before + cell;
        assert(painted(start, both) =~= bar_cells(bars, row, color, peak, (n + 2) as nat));
        if count < bars.len() {
            let gap = txt(run(' ', METER_BAR_GAP as nat));
            lemma_paint_push(start, both, gap);
            assert(cells_pieces(bars, count, row, color, peak) =~= both.push(gap));
            assert(painted(start, both.push(gap)) =~= bar_cells(
                bars,
                row,
                color,
                peak,
                (n + 3) as nat,
            ));
        } else {
            assert(cells_pieces(bars, count, row, color, peak) =~= both);
        }
    }
}

/// A row of the meter shows each bar in its place, in the colour of the row but for the
/// marks at the peaks, between grey edges.
pub proof fn meter_row_is_shown(
    start: Ink,
    bars: Seq<MeterColumn>,
    row: int,
    color: Color,
    peak: Color,
    left: nat,
    right: nat,
)
    requires
        start.1 is None,
    ensures
        painted(start, meter_row(bars, row, color, peak, left, right)) == inked(
            "│ "@ + run(' ', left),
            ink(Color::DarkGrey),
        ) + bar_cells(bars, row, color, peak, columns_of(bars.len() as int) as nat) + inked(
            run(' ', right) + " │\r\n"@,
            ink(Color::DarkGrey),
        ),
        ink_after(start, meter_row(bars, row, color, peak, left, right)) == ink(Color::DarkGrey),
{
    let cells = cells_pieces(bars, bars.len(), row, color, peak);
    let first = "│ "@ + run(' ', left);
    let end = run(' ', right) + " │\r\n"@;
    let p0 = Seq::<PieceModel>::empty();
    lemma_paint_push(start, p0, fg(Color::DarkGrey));
    let p1 = p0.push(fg(Color::DarkGrey));
    lemma_paint_push(start, p1, txt(first));
    let p2 = p1.push(txt(first));
    lemma_paint_push(start, p2, fg(color));
    let p3 = p2.push(fg(color));
    paint_goes_on(start, p3, cells);
    lemma_cells_painted(bars, bars.len(), row, color, peak);
    let q0 = p3 + cells;
    lemma_paint_push(start, q0, PieceModel::Reset);
    let q1 = q0.push(PieceModel::Reset);
    lemma_paint_push(start, q1, fg(Color::DarkGrey));
    let q2 = q1.push(fg(Color::DarkGrey));
    lemma_paint_push(start, q2, txt(end));
    let q3 = q2.push(txt(end));
    assert(meter_row(bars, row, color, peak, left, right) =~= q3);
    assert(painted(start, q3) =~= inked(first, ink(Color::DarkGrey)) + bar_cells(
        bars,
        row,
        color,
        peak,
        columns_of(bars.len() as int) as nat,
    ) + inked(end, ink(Color::DarkGrey)));
}

/// The rows of the meter stand above one another: one more row stands on top of the others.
pub proof fn rows_stand_on_one_another(
    bars: Seq<MeterColumn>,
    colors: Seq<Color>,
    color: Color,
    row: int,
    peak: Color,
    left: nat,
    right: nat,
)
    requires
        0 <= row <= colors.len(),
    ensures
        rows_above(bars, Seq::empty(), 0, peak, left, right) == Seq::<PieceModel>::empty(),
        rows_above(bars, colors.push(color), row, peak, left, right) == meter_row(
            bars,
            (colors.len() + 1) as int,
            color,
            peak,
            left,
            right,
        ) + rows_above(bars, colors, row, peak, left, right),
    decreases colors.len() - row,
{
    let more = colors.push(color);
    let top = meter_row(bars, (colors.len() + 1) as int, color, peak, left, right);
    if row == colors.len() {
        assert(rows_above(bars, more, row + 1, peak, left, right) =~= Seq::<PieceModel>::empty());
        assert(rows_above(bars, more, row, peak, left, right) =~= top);
        assert(top + rows_above(bars, colors, row, peak, left, right) =~= top);
    } else {
        rows_stand_on_one_another(bars, colors, color, row + 1, peak, left, right);
        assert(more[row] == colors[row]);
        assert(rows_above(bars, more, row, peak, left, right) =~= top + rows_above(
            bars,
            colors,
            row,
            peak,
            left,
            right,
        ));
    }
}

/// The meter is an empty row and below it all its rows, with the columns that are left on
/// either side of the bars.
pub proof fn meter_is_shown(
    bars: Seq<MeterColumn>,
    colors: Seq<Color>,
    is_paused: bool,
    inner_width: nat,
    theme: VisualizerTheme,
)
    ensures
        ({
            let room = floor_sub(
                inner_width,
                columns_of(bars_for(inner_width as int)) as nat,
            );
            visualizer(bars, colors, is_paused, inner_width, theme) == seq![
                fg(Color::DarkGrey),
                txt("│ "@ + run(' ', inner_width) + " │\r\n"@),
            ] + rows_above(
                bars,
                colors,
                0,
                peak_color(theme, is_paused),
                room / 2,
                (room - room / 2) as nat,
            )
        }),
{
    let columns = columns_of(bars_for(inner_width as int)) as nat;
    let room = floor_sub(inner_width, columns);
    assert(left_padding(inner_width) == room / 2);
    assert(right_padding(inner_width) == room - room / 2);
}

/// The rows of the panels, one below the other: the spectrum panel has the meter between
/// its edges.
pub proof fn spectrum_panel_is_shown(
    bars: Seq<MeterColumn>,
    colors: Seq<Color>,
    is_paused: bool,
    width: nat,
    theme: VisualizerTheme,
)
    ensures
        spectrum_panel(bars, colors, is_paused, width, theme) == panel_top(
            "spectrum"@,
            width,
            Color::Yellow,
        ) + visualizer(bars, colors, is_paused, floor_sub(width, 4), theme) + panel_bottom(width),
{
}

/// What plays is said by its file; where there are tags, by its title, or the file where
/// they have none, and by artist and album where they have them. Where nothing plays, tags
/// say nothing.
pub proof fn track_is_told(width: nat, name: Seq<char>, metadata: Option<TrackMetadata>)
    ensures
        track_rows(width, None, metadata) == panel_text(width, "track"@, "none"@, Color::White),
        track_rows(width, Some(name), None) == panel_text(width, "track"@, name, Color::White),
        metadata matches Some(tags) ==> track_rows(width, Some(name), metadata) == panel_text(
            width,
            "title"@,
            match tags.title {
                Some(title) => title@,
                None => name,
            },
            Color::White,
        ) + (match tags.artist {
            Some(artist) => panel_text(width, "artist"@, artist@, Color::White),
            None => Seq::empty(),
        }) + (match tags.album {
            Some(album) => panel_text(width, "album"@, album@, Color::DarkGrey),
            None => Seq::empty(),
        }),
{
}

/// The row that shows state, volume and theme: the state in its colour, the volume as a
/// number and as cells, filled and empty to five and further ones in red, and the theme.
pub proof fn status_is_told(
    playing: bool,
    is_paused: bool,
    gauge: VolumeGauge,
    theme: VisualizerTheme,
)
    requires
        gauge.wf(),
    ensures
        ({
            let parts = status_parts(playing, is_paused, gauge, theme);
            let state = if !playing {
                ("■ IDLE"@, Color::DarkGrey)
            } else if is_paused {
                ("⏸ PAUSED"@, Color::Yellow)
            } else {
                ("▶ PLAYING"@, Color::Green)
            };
            &&& parts.len() == 14
            &&& parts.take(7) == seq![
                ("state"@, Color::Green),
                (" "@, Color::DarkGrey),
                state,
                ("  volume"@, Color::Green),
                (" "@, Color::DarkGrey),
                (gauge.percent@, Color::White),
                (" ["@, Color::DarkGrey),
            ]
            &&& parts[7] == (run('▮', gauge.filled as nat), Color::Cyan)
            &&& parts[8].0.len() + gauge.filled == 5
            &&& parts[8] == (run('░', parts[8].0.len()), Color::DarkGrey)
            &&& parts[9] == (run('▮', gauge.boost as nat), Color::Red)
            &&& parts.skip(10) == seq![
                ("]"@, Color::DarkGrey),
                ("  theme"@, Color::Green),
                (" "@, Color::DarkGrey),
                (theme.title(), Color::White),
            ]
        }),
{
    let parts = status_parts(playing, is_paused, gauge, theme);
    let state = parts[2];
    assert(parts.take(7) =~= seq![
        ("state"@, Color::Green),
        (" "@, Color::DarkGrey),
        state,
        ("  volume"@, Color::Green),
        (" "@, Color::DarkGrey),
        (gauge.percent@, Color::White),
        (" ["@, Color::DarkGrey),
    ]);
    assert(parts.skip(10) =~= seq![
        ("]"@, Color::DarkGrey),
        ("  theme"@, Color::Green),
        (" "@, Color::DarkGrey),
        (theme.title(), Color::White),
    ]);
}

/// The row that shows how playback goes on: what is on stands out in cyan.
pub proof fn modes_are_told(mode: RepeatMode, shuffle: bool)
    ensures
        mode_parts(mode, shuffle) == seq![
            ("repeat"@, Color::Green),
            (" "@, Color::DarkGrey),
            if mode == RepeatMode::Off {
                ("→ OFF"@, Color::DarkGrey)
            } else if mode == RepeatMode::All {
                ("🔁 ALL"@, Color::Cyan)
            } else {
                ("🔂 ONE"@, Color::Cyan)
            },
            ("  shuffle"@, Color::Green),
            (" "@, Color::DarkGrey),
            if shuffle {
                ("🔀 ON"@, Color::Cyan)
            } else {
                ("→ OFF"@, Color::DarkGrey)
            },
        ],
{
}

/// The playback panel has, between its edges, the rows for state and modes, those that say
/// what plays, the status and the position, in this order.
pub proof fn playback_panel_is_shown(
    playing: Option<Seq<char>>,
    status: Seq<char>,
    time: Seq<char>,
    metadata: Option<TrackMetadata>,
    is_paused: bool,
    gauge: VolumeGauge,
    filled: nat,
    is_loading: bool,
    repeat_mode: RepeatMode,
    shuffle: bool,
    theme: VisualizerTheme,
    width: nat,
)
    ensures
        playback_panel(
            playing,
            status,
            time,
            metadata,
            is_paused,
            gauge,
            filled,
            is_loading,
            repeat_mode,
            shuffle,
            theme,
            width,
        ) == panel_top("playback"@, width, Color::Green) + panel_line(
            width,
            status_parts(playing is Some, is_paused, gauge, theme),
        ) + panel_line(width, mode_parts(repeat_mode, shuffle)) + track_rows(
            width,
            playing,
            metadata,
        ) + panel_text(width, "info"@, status, Color::DarkGrey) + time_row(
            width,
            time,
            filled,
            is_loading,
        ) + panel_bottom(width),
{
}

/// The title of the playlist is its name alone, unless something is searched for or is about
/// to be: then it has that, a cursor while it is typed, and the number of tracks found.
pub proof fn playlist_title_tells_the_search(
    query: Seq<char>,
    is_searching: bool,
    match_count: nat,
)
    ensures
        query.len() == 0 && !is_searching ==> title_text(query, is_searching, match_count)
            == "playlist"@,
        is_searching ==> title_text(query, is_searching, match_count) == "playlist /"@ + query
            + "_"@ + " ("@ + decimal(match_count) + ")"@,
        query.len() > 0 && !is_searching ==> title_text(query, is_searching, match_count)
            == "playlist /"@ + query + " ("@ + decimal(match_count) + ")"@,
{
    if query.len() > 0 && !is_searching {
        assert(title_text(query, is_searching, match_count) =~= "playlist /"@ + query + " ("@
            + decimal(match_count) + ")"@);
    }
}

/// The playlist is shown from its first track on as long as the selected one has room; from
/// then on the selected one is the last that is shown. It ends with the room or the list.
pub proof fn playlist_scrolls_with_the_selection(
    indices: Seq<usize>,
    current_index: usize,
    visible_rows: nat,
)
    ensures
        ({
            let start = first_shown(indices, current_index, visible_rows);
            let end = shown_end(indices, current_index, visible_rows);
            &&& visible_rows == 0 ==> end <= start
            &&& !indices.contains(current_index) ==> start == 0
            &&& position_of(indices, current_index) matches Some(position) ==> {
                &&& position < visible_rows ==> start == 0
                &&& position >= visible_rows > 0 ==> start + visible_rows == position + 1
            }
            &&& end == start + visible_rows || (end == indices.len() && end < start + visible_rows)
        }),
{
    crate::playlist::position_is_the_first(indices, current_index);
}

/// The tracks that are shown follow one another as in the playlist, the first on top: each
/// with its name, marked if it is selected or plays.
pub proof fn tracks_are_listed_in_order(
    files: Seq<TrackFile>,
    indices: Seq<usize>,
    start: int,
    end: int,
    current_index: usize,
    playing_index: Option<usize>,
    width: nat,
)
    ensures
        start >= end ==> playlist_rows(
            files,
            indices,
            start,
            end,
            current_index,
            playing_index,
            width,
        ) == Seq::<PieceModel>::empty(),
        start < end ==> playlist_rows(
            files,
            indices,
            start,
            end,
            current_index,
            playing_index,
            width,
        ) == playlist_row(
            name_of(files[indices[start] as int]),
            indices[start] == current_index,
            playing_index == Some(indices[start]),
            width,
        ) + playlist_rows(files, indices, start + 1, end, current_index, playing_index, width),
    decreases end - start,
{
    if start < end {
        let index = indices[end - 1];
        let last = playlist_row(
            name_of(files[index as int]),
            index == current_index,
            Some(index) == playing_index,
            width,
        );
        let all = playlist_rows(files, indices, start, end, current_index, playing_index, width);
        let rest = playlist_rows(
            files,
            indices,
            start + 1,
            end,
            current_index,
            playing_index,
            width,
        );
        if start == end - 1 {
            assert(playlist_rows(
                files,
                indices,
                start,
                end - 1,
                current_index,
                playing_index,
                width,
            ) =~= Seq::<PieceModel>::empty());
            assert(all =~= last);
            assert(last + rest =~= last);
        } else {
            tracks_are_listed_in_order(
                files,
                indices,
                start,
                end - 1,
                current_index,
                playing_index,
                width,
            );
            let first = playlist_row(
                name_of(files[indices[start] as int]),
                indices[start] == current_index,
                playing_index == Some(indices[start]),
                width,
            );
            assert(all =~= first + rest);
        }
    }
}

/// The playlist panel has, between its edges, the tracks that are shown, or says that there
/// is none.
pub proof fn playlist_panel_is_shown(
    files: Seq<TrackFile>,
    indices: Seq<usize>,
    current_index: usize,
    playing_index: Option<usize>,
    query: Seq<char>,
    is_searching: bool,
    visible_rows: nat,
    width: nat,
)
    ensures
        ({
            let panel = playlist_panel(
                files,
                indices,
                current_index,
                playing_index,
                query,
                is_searching,
                visible_rows,
                width,
            );
            let top = panel_top(
                title_text(query, is_searching, indices.len()),
                width,
                Color::Red,
            );
            &&& indices.len() > 0 ==> panel == top + playlist_rows(
                files,
                indices,
                first_shown(indices, current_index, visible_rows) as int,
                shown_end(indices, current_index, visible_rows) as int,
                current_index,
                playing_index,
                width,
            ) + panel_bottom(width)
            &&& indices.len() == 0 ==> panel == top + panel_text(
                width,
                Seq::empty(),
                "No matches"@,
                Color::DarkGrey,
            ) + panel_bottom(width)
        }),
{
    let start = first_shown(indices, current_index, visible_rows) as int;
    let end = shown_end(indices, current_index, visible_rows) as int;
    let top = panel_top(title_text(query, is_searching, indices.len()), width, Color::Red);
    let rows = playlist_rows(files, indices, start, end, current_index, playing_index, width);
    if indices.len() > 0 {
        assert(top + rows + Seq::<PieceModel>::empty() =~= top + rows);
    } else {
        assert(rows =~= Seq::<PieceModel>::empty());
        assert(top + rows =~= top);
    }
}

/// The screen leaves a column of the terminal free, within 60 and 120 columns, and is 80
/// columns wide where the terminal does not say; the playlist has the rows that the other
/// 24 leave, within three and eight, and eight where the terminal does not say.
pub proof fn screen_fits_the_terminal(columns: u16, rows: u16)
    ensures
        60 <= width_for(Some(columns)) <= 120,
        61 <= columns <= 121 ==> width_for(Some(columns)) == columns - 1,
        columns < 61 ==> width_for(Some(columns)) == 60,
        columns > 121 ==> width_for(Some(columns)) == 120,
        width_for(None) == 80,
        3 <= rows_for(Some(rows)) <= 8,
        27 <= rows <= 32 ==> rows_for(Some(rows)) == rows - 24,
        rows < 27 ==> rows_for(Some(rows)) == 3,
        rows > 32 ==> rows_for(Some(rows)) == 8,
        rows_for(None) == 8,
{
}

/// The screen is the header, and below it the panels for playback, spectrum and playlist,
/// each of the session as it is.
pub proof fn screen_shows_the_session(
    session: Session,
    indices: Seq<usize>,
    sound: Sound,
    room: Room,
)
    ensures
        screen(session, indices, sound, room) == header(room.width as nat) + playback_panel(
            match session.playing_index {
                Some(index) => Some(name_of(session.files@[index as int])),
                None => None,
            },
            session.status@,
            progress_text(sound.elapsed, duration_of(session.visual)),
            session.metadata,
            sound.is_paused,
            sound.gauge,
            sound.filled_chars as nat,
            session.pending is Some,
            session.repeat_mode,
            session.shuffle,
            session.theme,
            room.width as nat,
        ) + spectrum_panel(
            sound.columns@,
            sound.row_colors@,
            sound.is_paused,
            room.width as nat,
            session.theme,
        ) + playlist_panel(
            session.files@,
            indices,
            session.current_index,
            session.playing_index,
            session.search_query@,
            session.is_searching,
            room.visible_rows as nat,
            room.width as nat,
        ),
{
}

/// The progress bar has the columns that label, position and edges leave.
pub proof fn progress_bar_takes_what_is_left(width: nat, time: Seq<char>)
    ensures
        bar_columns(width, time) == floor_sub(width, 11 + time.len()),
{
    reveal_strlit("time: ");
}

/// The track that plays is called by its name.
pub proof fn playing_track_has_its_name(files: Seq<TrackFile>, index: usize)
    ensures
        playing_name(files, None) is None,
        playing_name(files, Some(index)) == Some(name_of(files[index as int])),
{
}

/// Coloured parts are the texts and colours that were handed over.
pub proof fn parts_are_handed_on(parts: Seq<(&str, Color)>)
    ensures
        parts_of(parts).len() == parts.len(),
        forall|i: int|
            0 <= i < parts.len() ==> #[trigger] parts_of(parts)[i] == (parts[i].0@, parts[i].1),
{
}

} // verus!
