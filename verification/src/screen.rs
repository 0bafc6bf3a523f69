//! The whole screen.
use vstd::prelude::*;
use crate::layout::{
    header_height, one_line, playback_panel_height, playlist_panel_height, playlist_row_count,
    spectrum_panel_height, track_row_count,
};
use crate::panels::{
    first_shown, header, playback_panel, playing_name, playlist_panel, shown_end, shown_exist,
    spectrum_panel, write_header, write_playback_panel, write_playlist_panel, write_spectrum_panel,
    MeterColumn, VolumeGauge,
};
use crate::session::Session;
use crate::style::{
    frame_lines, lemma_frame_lines_concat, line_feeds, renders, update_text, Color, Frame,
    PieceModel, RenderState, Rendering,
};
use crate::time::{progress_text, PlayTime};
use crate::track::{duration_of, metadata_of, name_of, visual_of};

verus! {

/// What the screen shows of the sound.
pub struct Sound {
    /// The position in the track.
    pub elapsed: PlayTime,
    pub is_paused: bool,
    pub gauge: VolumeGauge,
    /// The number of columns of the progress bar that are filled.
    pub filled_chars: usize,
    /// The bars of the meter.
    pub columns: Vec<MeterColumn>,
    /// The colours of the rows of the meter, the lowest first.
    pub row_colors: Vec<Color>,
}

/// The room that the screen has.
#[derive(Clone, Copy, Debug, PartialEq, Eq)]
pub struct Room {
    /// The number of columns.
    pub width: usize,
    /// The number of tracks of the playlist that are shown.
    pub visible_rows: usize,
}

/// The whole screen: a header and, below one another, the panels for playback, meter and
/// playlist.
pub open spec fn screen(session: Session, indices: Seq<usize>, sound: Sound, room: Room) -> Seq<
    PieceModel,
> {
    header(room.width as nat) + playback_panel(
        playing_name(session.files@, session.playing_index),
        session.status@,
        progress_text(sound.elapsed, duration_of(session.visual)),
        session.metadata,
        sound.is_paused,
        sound.gauge,
        sound.filled_chars as nat,
        session.pending is Some,
        session.repeat_mode,
        session.shuffle,
        session.theme,
        room.width as nat,
    ) + spectrum_panel(
        sound.columns@,
        sound.row_colors@,
        sound.is_paused,
        room.width as nat,
        session.theme,
    ) + playlist_panel(
        session.files@,
        indices,
        session.current_index,
        session.playing_index,
        session.search_query@,
        session.is_searching,
        room.visible_rows as nat,
        room.width as nat,
    )
}

/// Puts the whole screen together; `playlist_indices` are the tracks that the search finds.
pub fn compose(session: &Session, playlist_indices: &[usize], sound: &Sound, room: Room) -> (frame:
    Frame)
    requires
        session.wf(),
        sound.gauge.wf(),
        shown_exist(
            playlist_indices@,
            session.current_index,
            room.visible_rows as nat,
            session.files@.len(),
        ),
    ensures
        frame@ == screen(*session, playlist_indices@, *sound, room),
{
    let visual = session.visual.as_ref();
    let metadata = session.metadata.as_ref();
    assert(visual_of(visual) == session.visual);
    assert(metadata_of(metadata) == session.metadata);
    let mut frame = Frame::new();
    write_header(&mut frame, room.width);
    write_playback_panel(
        &mut frame,
        &session.files,
        session.playing_index,
        session.status.as_str(),
        sound.elapsed,
        visual,
        metadata,
        sound.is_paused,
        &sound.gauge,
        sound.filled_chars,
        session.pending.is_some(),
        session.repeat_mode,
        session.shuffle,
        session.theme,
        room.width,
    );
    write_spectrum_panel(
        &mut frame,
        &sound.columns,
        &sound.row_colors,
        sound.is_paused,
        room.width,
        session.theme,
    );
    write_playlist_panel(
        &mut frame,
        &session.files,
        playlist_indices,
        session.current_index,
        session.playing_index,
        session.search_query.as_str(),
        session.is_searching,
        room.visible_rows,
        room.width,
    );
    assert(Seq::<PieceModel>::empty() + header(room.width as nat) =~= header(room.width as nat));
    frame
}

/// Whether no text that the screen shows holds a line feed.
pub open spec fn texts_are_lines(session: Session, indices: Seq<usize>, sound: Sound, room: Room) -> bool {
    &&& playing_name(session.files@, session.playing_index) matches Some(name) ==> line_feeds(name)
        == 0
    &&& line_feeds(session.status@) == 0
    &&& line_feeds(session.search_query@) == 0
    &&& line_feeds(sound.gauge.percent@) == 0
    &&& session.metadata matches Some(tags) ==> one_line(tags.title) && one_line(tags.artist)
        && one_line(tags.album)
    &&& forall|k: int|
        first_shown(indices, session.current_index, room.visible_rows as nat) <= k < shown_end(
            indices,
            session.current_index,
            room.visible_rows as nat,
        ) ==> line_feeds(name_of(session.files@[#[trigger] indices[k] as int])) == 0
}

/// Where no text holds a line feed, the screen is twelve lines higher than the rows of the
/// meter, those that say what plays and those of the playlist together.
pub proof fn screen_height(session: Session, indices: Seq<usize>, sound: Sound, room: Room)
    requires
        texts_are_lines(session, indices, sound, room),
    ensures
        frame_lines(screen(session, indices, sound, room)) == 12 + track_row_count(
            playing_name(session.files@, session.playing_index),
            session.metadata,
        ) + sound.row_colors@.len() + playlist_row_count(
            indices,
            session.current_index,
            room.visible_rows as nat,
        ),
{
    let w = room.width as nat;
    let duration = duration_of(session.visual);
    let playback = playback_panel(
        playing_name(session.files@, session.playing_index),
        session.status@,
        progress_text(sound.elapsed, duration),
        session.metadata,
        sound.is_paused,
        sound.gauge,
        sound.filled_chars as nat,
        session.pending is Some,
        session.repeat_mode,
        session.shuffle,
        session.theme,
        w,
    );
    let spectrum = spectrum_panel(
        sound.columns@,
        sound.row_colors@,
        sound.is_paused,
        w,
        session.theme,
    );
    let tracks = playlist_panel(
        session.files@,
        indices,
        session.current_index,
        session.playing_index,
        session.search_query@,
        session.is_searching,
        room.visible_rows as nat,
        w,
    );
    header_height(w);
    playback_panel_height(
        playing_name(session.files@, session.playing_index),
        session.status@,
        sound.elapsed,
        duration,
        session.metadata,
        sound.is_paused,
        sound.gauge,
        sound.filled_chars as nat,
        session.pending is Some,
        session.repeat_mode,
        session.shuffle,
        session.theme,
        w,
    );
    spectrum_panel_height(
        sound.columns@,
        sound.row_colors@,
        sound.is_paused,
        w,
        session.theme,
    );
    playlist_panel_height(
        session.files@,
        indices,
        session.current_index,
        session.playing_index,
        session.search_query@,
        session.is_searching,
        room.visible_rows as nat,
        w,
    );
    lemma_frame_lines_concat(header(w), playback);
    lemma_frame_lines_concat(header(w) + playback, spectrum);
    lemma_frame_lines_concat(header(w) + playback + spectrum, tracks);
}

/// What is to be written to the terminal to show the session in place of the frame that is
/// on the screen.
pub fn draw(
    session: &Session,
    playlist_indices: &[usize],
    sound: &Sound,
    room: Room,
    render_state: &RenderState,
) -> (rendering: Rendering)
    requires
        session.wf(),
        sound.gauge.wf(),
        shown_exist(
            playlist_indices@,
            session.current_index,
            room.visible_rows as nat,
            session.files@.len(),
        ),
    ensures
        rendering.height == frame_lines(screen(*session, playlist_indices@, *sound, room)),
        exists|text: Seq<char>| #[trigger]
            renders(screen(*session, playlist_indices@, *sound, room), text)
                && rendering.output@ == update_text(text, rendering.height < render_state.last_height),
{
    let frame = compose(session, playlist_indices, sound, room);
    render_state.show(&frame)
}

} // verus!
