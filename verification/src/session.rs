//! A session with the player: what is selected, what plays, and what keys do.
//!
//! The session decides; playing, seeking and analysing are done outside. [`Session::press`]
//! and [`Session::track_ended`] say what is to be done, and what came of it is reported
//! with [`Session::started`], [`Session::seeked`], [`Session::volume_changed`] and
//! [`Session::analyzed`].
use vstd::prelude::*;
use crate::mode::{RepeatMode, VisualizerTheme};
use crate::playlist::{find_position, move_selection, next_after, next_track, selection_after};
use crate::search::{fuzzy_track_indices, playlist};
use crate::shuffle::{others, refill_shuffle_queue, shuffled};
use crate::spectrum::AnalysisMessage;
use crate::text::{control, is_control};
use crate::time::{clock_text, format_duration, seek_by, seek_goal, span, total_of, PlayTime};
use crate::track::{display_name, duration_of, known_duration, names_of, TrackFile, TrackMetadata, TrackVisual};

verus! {

/// The number of seconds that a seek key moves the position.
pub const SEEK_STEP_SECONDS: i64 = 5;

/// A key.
#[derive(Clone, Copy, Debug, PartialEq, Eq, Structural)]
pub enum Key {
    Esc,
    Enter,
    Backspace,
    Left,
    Right,
    Up,
    Down,
    Char(char),
    Other,
}

/// What is to be done for a key.
#[derive(Clone, Copy, Debug, PartialEq, Eq, Structural)]
pub enum Action {
    /// Nothing.
    Stay,
    /// Leave the program.
    Quit,
    /// Play a track.
    Start { index: usize },
    /// Stop what plays, and play a track.
    Restart { index: usize },
    /// Hold playback.
    Pause,
    /// Go on with playback.
    Resume,
    /// Go to a position in the track.
    Seek { target: PlayTime },
    /// Raise the volume by a step.
    VolumeUp,
    /// Lower the volume by a step.
    VolumeDown,
}

/// What the background analysis of the track that plays has brought.
pub enum AnalysisUpdate {
    /// A report.
    Report(AnalysisMessage),
    /// It ended without a final report.
    Disconnected,
}

/// A session with the player.
pub struct Session {
    /// The tracks.
    pub files: Vec<TrackFile>,
    /// The selected track.
    pub current_index: usize,
    /// The track that plays.
    pub playing_index: Option<usize>,
    /// What the meter shows of it.
    pub visual: Option<TrackVisual>,
    /// The track that is analysed.
    pub pending: Option<usize>,
    /// What is searched for.
    pub search_query: String,
    /// Whether keys go to the search.
    pub is_searching: bool,
    pub repeat_mode: RepeatMode,
    pub shuffle: bool,
    /// The tracks that are still to be played in shuffled order.
    pub shuffle_queue: Vec<usize>,
    /// What the tags of the track that plays say.
    pub metadata: Option<TrackMetadata>,
    pub theme: VisualizerTheme,
    /// What was done last.
    pub status: String,
}

/// A session as mathematical values: names and texts as characters, lists as sequences.
#[verifier::ext_equal]
pub struct SessionModel {
    pub names: Seq<Seq<char>>,
    pub current: usize,
    pub playing: Option<usize>,
    pub visual: Option<TrackVisual>,
    pub pending: Option<usize>,
    pub query: Seq<char>,
    pub searching: bool,
    pub repeat_mode: RepeatMode,
    pub shuffle: bool,
    pub queue: Seq<usize>,
    pub metadata: Option<TrackMetadata>,
    pub theme: VisualizerTheme,
    pub status: Seq<char>,
}

impl View for Session {
    type V = SessionModel;

    open spec fn view(&self) -> SessionModel {
        SessionModel {
            names: names_of(self.files@),
            current: self.current_index,
            playing: self.playing_index,
            visual: self.visual,
            pending: self.pending,
            query: self.search_query@,
            searching: self.is_searching,
            repeat_mode: self.repeat_mode,
            shuffle: self.shuffle,
            queue: self.shuffle_queue@,
            metadata: self.metadata,
            theme: self.theme,
            status: self.status@,
        }
    }
}

/// A text between two others.
pub open spec fn sentence(before: Seq<char>, middle: Seq<char>, after: Seq<char>) -> Seq<char> {
    before + middle + after
}

impl SessionModel {
    /// Whether every track that the session speaks of is one that there is.
    pub open spec fn wf(self) -> bool {
        &&& 0 < self.names.len() <= usize::MAX
        &&& self.current < self.names.len()
        &&& self.playing matches Some(index) ==> index < self.names.len()
        &&& self.pending matches Some(index) ==> index < self.names.len()
        &&& forall|k: int| 0 <= k < self.queue.len() ==> #[trigger] self.queue[k] < self.names.len()
        &&& self.visual matches Some(visual) ==> visual.wf()
    }

    /// The tracks that the search finds.
    pub open spec fn listed(self) -> Seq<usize> {
        playlist(self.names, self.query)
    }

    /// The session with another status.
    pub open spec fn saying(self, status: Seq<char>) -> SessionModel {
        SessionModel { status, ..self }
    }

    /// The session with the shuffle queue filled anew.
    pub open spec fn refilled(self, seed: u64) -> SessionModel {
        SessionModel { queue: shuffled(others(self.listed(), self.playing), seed), ..self }
    }

    /// The session with the first track that the search finds selected, where it finds one.
    pub open spec fn first_selected(self) -> SessionModel {
        if self.listed().len() > 0 {
            SessionModel { current: self.listed()[0], ..self }
        } else {
            self
        }
    }

    /// The session with a track selected that the search finds, where it finds one: the
    /// track that was selected, or else the first.
    pub open spec fn settled(self) -> SessionModel {
        if self.listed().contains(self.current) {
            self
        } else {
            self.first_selected()
        }
    }

    /// The session after news of the analysis of a track, and whether the meter starts
    /// anew. Spectra are shown if their track still plays.
    pub open spec fn after_update(self, update: AnalysisUpdate) -> (SessionModel, bool) {
        let plays = self.playing == self.pending;
        let name = self.names[self.pending->0 as int];
        match update {
            AnalysisUpdate::Report(AnalysisMessage::Preview(visual)) => if plays {
                (SessionModel { visual: Some(visual), ..self }, true)
            } else {
                (self, false)
            },
            AnalysisUpdate::Report(AnalysisMessage::Complete(visual)) => if plays {
                (
                    SessionModel {
                        visual: Some(visual),
                        pending: None,
                        status: sentence("Playing "@, name, "."@),
                        ..self
                    },
                    true,
                )
            } else {
                (SessionModel { pending: None, ..self }, false)
            },
            AnalysisUpdate::Report(AnalysisMessage::Failed(error)) => if plays {
                (
                    SessionModel {
                        pending: None,
                        status: sentence("Spectrum unavailable for "@, name, ": "@) + error@,
                        ..self
                    },
                    false,
                )
            } else {
                (SessionModel { pending: None, ..self }, false)
            },
            AnalysisUpdate::Disconnected => (
                SessionModel { pending: None, status: "Spectrum analysis stopped."@, ..self },
                false,
            ),
        }
    }

    /// The session at the end of the track that plays, and the track to play next: that
    /// track is then selected.
    pub open spec fn after_end(self, seed: u64) -> (SessionModel, Option<usize>) {
        let (next, queue) = next_after(
            self.queue,
            self.listed(),
            self.playing->0,
            self.repeat_mode,
            self.shuffle,
            seed,
        );
        let stopped = SessionModel {
            playing: None,
            visual: None,
            pending: None,
            metadata: None,
            queue,
            ..self
        };
        match next {
            Some(index) => (SessionModel { current: index, ..stopped }, next),
            None => (stopped.saying("Finished."@), next),
        }
    }

    /// The session after an attempt to play a track. Shuffled play starts over with the
    /// other tracks if `reshuffle` holds.
    pub open spec fn after_start(
        self,
        index: usize,
        outcome: Result<(), String>,
        metadata: Option<TrackMetadata>,
        reshuffle: bool,
        seed: u64,
    ) -> SessionModel {
        let name = self.names[index as int];
        let begun = match outcome {
            Ok(_) => SessionModel {
                playing: Some(index),
                visual: None,
                pending: Some(index),
                metadata,
                status: sentence("Playing "@, name, "."@),
                ..self
            },
            Err(error) => SessionModel {
                playing: None,
                visual: None,
                pending: None,
                metadata,
                status: sentence("Could not play "@, name, ": "@) + error@,
                ..self
            },
        };
        if reshuffle && self.shuffle {
            begun.refilled(seed)
        } else {
            begun
        }
    }

    /// The session after a key that goes to the search.
    pub open spec fn after_search_key(self, key: Key) -> SessionModel {
        (match key {
            Key::Esc => SessionModel {
                searching: false,
                query: Seq::empty(),
                status: "Search cleared."@,
                ..self
            },
            Key::Enter => SessionModel { searching: false, ..self },
            Key::Backspace => SessionModel {
                query: if self.query.len() > 0 {
                    self.query.drop_last()
                } else {
                    self.query
                },
                ..self
            },
            Key::Char(c) => SessionModel {
                query: if control(c) {
                    self.query
                } else {
                    self.query.push(c)
                },
                ..self
            },
            _ => self,
        }).first_selected()
    }

    /// The session after a seek key, and what is to be done.
    pub open spec fn after_seek_key(self, position: PlayTime, delta: int) -> (SessionModel, Action) {
        if self.playing is None {
            (self.saying("Could not seek: "@ + "nothing is playing"@), Action::Stay)
        } else {
            (
                self,
                Action::Seek {
                    target: span(
                        seek_goal(
                            position.total(),
                            total_of(duration_of(self.visual)),
                            delta,
                        ),
                    ),
                },
            )
        }
    }

    /// The session after the space key, and what is to be done.
    pub open spec fn after_space(self, is_paused: bool) -> (SessionModel, Action) {
        match self.playing {
            Some(index) => if is_paused {
                (
                    self.saying(sentence("Playing "@, self.names[index as int], "."@)),
                    Action::Resume,
                )
            } else {
                (self.saying(sentence("Paused "@, self.names[index as int], "."@)), Action::Pause)
            },
            None => if self.listed().contains(self.current) {
                (self, Action::Start { index: self.current })
            } else {
                (self.saying("No matching track selected."@), Action::Stay)
            },
        }
    }

    /// The session after the key that switches shuffled play.
    pub open spec fn after_shuffle_key(self, seed: u64) -> SessionModel {
        if self.shuffle {
            SessionModel {
                shuffle: false,
                queue: Seq::empty(),
                status: "Shuffle disabled."@,
                ..self
            }
        } else {
            SessionModel { shuffle: true, status: "Shuffle enabled."@, ..self }.refilled(seed)
        }
    }

    /// The session after a key that does not go to the search, and what is to be done.
    pub open spec fn after_player_key(
        self,
        key: Key,
        position: PlayTime,
        is_paused: bool,
        seed: u64,
    ) -> (SessionModel, Action) {
        match key {
            Key::Left => self.after_seek_key(position, -SEEK_STEP_SECONDS),
            Key::Right => self.after_seek_key(position, SEEK_STEP_SECONDS as int),
            Key::Up => (
                SessionModel { current: selection_after(self.listed(), self.current, -1), ..self },
                Action::Stay,
            ),
            Key::Down => (
                SessionModel { current: selection_after(self.listed(), self.current, 1), ..self },
                Action::Stay,
            ),
            Key::Enter => if self.listed().contains(self.current) {
                (self, Action::Restart { index: self.current })
            } else {
                (self.saying("No matching track selected."@), Action::Stay)
            },
            Key::Esc => if self.query.len() == 0 {
                (self, Action::Quit)
            } else {
                (
                    SessionModel {
                        query: Seq::empty(),
                        current: 0,
                        status: "Search cleared."@,
                        ..self
                    },
                    Action::Stay,
                )
            },
            Key::Char(c) => if c == '+' {
                (self, Action::VolumeUp)
            } else if c == '-' {
                (self, Action::VolumeDown)
            } else if c == '/' {
                (
                    SessionModel {
                        searching: true,
                        status: "Type to fuzzy-search tracks. Esc clears search."@,
                        ..self
                    },
                    Action::Stay,
                )
            } else if c == 'a' || c == 'A' || c == 'r' || c == 'R' {
                let mode = self.repeat_mode.successor();
                (
                    SessionModel {
                        repeat_mode: mode,
                        status: sentence("Repeat mode set to "@, mode.title(), "."@),
                        ..self
                    },
                    Action::Stay,
                )
            } else if c == 's' || c == 'S' {
                (self.after_shuffle_key(seed), Action::Stay)
            } else if c == 't' || c == 'T' {
                let theme = self.theme.successor();
                (
                    SessionModel {
                        theme,
                        status: sentence("Visualizer theme set to "@, theme.title(), "."@),
                        ..self
                    },
                    Action::Stay,
                )
            } else if c == ' ' {
                self.after_space(is_paused)
            } else if c == 'q' {
                (self, Action::Quit)
            } else {
                (self, Action::Stay)
            },
            _ => (self, Action::Stay),
        }
    }

    /// The session after a key, and what is to be done.
    pub open spec fn after_key(self, key: Key, position: PlayTime, is_paused: bool, seed: u64) -> (
        SessionModel,
        Action,
    ) {
        if self.searching {
            (self.after_search_key(key), Action::Stay)
        } else {
            self.after_player_key(key, position, is_paused, seed)
        }
    }

    /// The session after a seek, and whether the meter starts anew.
    pub open spec fn after_seek(self, outcome: Result<PlayTime, String>) -> (SessionModel, bool) {
        match outcome {
            Ok(position) => (
                self.saying(sentence("Seeked to "@, clock_text(position.secs as nat), "."@)),
                true,
            ),
            Err(error) => (self.saying("Could not seek: "@ + error@), false),
        }
    }
}

/// A refilled queue holds only tracks that there are.
proof fn lemma_refilled_wf(model: SessionModel, seed: u64)
    requires
        model.wf(),
    ensures
        model.refilled(seed).wf(),
{
    let next = model.refilled(seed);
    crate::search::playlist_members(model.names, model.query);
    crate::shuffle::refilled_queue_holds_the_others(model.listed(), model.playing, seed);
    assert forall|k: int| 0 <= k < next.queue.len() implies #[trigger] next.queue[k]
        < next.names.len() by {
        assert(next.queue.contains(next.queue[k]));
        assert(model.listed().contains(next.queue[k]));
    }
}

/// A track that the search finds is one that there is.
proof fn lemma_first_selected_wf(model: SessionModel)
    requires
        model.wf(),
    ensures
        model.first_selected().wf(),
{
    crate::search::playlist_members(model.names, model.query);
    if model.listed().len() > 0 {
        assert(model.listed().contains(model.listed()[0]));
    }
}

/// Moving the selection leads to a track that there is.
proof fn lemma_selection_wf(model: SessionModel, direction: int)
    requires
        model.wf(),
    ensures
        selection_after(model.listed(), model.current, direction) < model.names.len(),
{
    crate::search::playlist_members(model.names, model.query);
    if model.listed().len() > 0 {
        crate::playlist::selection_stays_in_list(model.listed(), model.current, direction);
    }
}

/// At the end of a track the session goes on with tracks that there are.
proof fn lemma_end_wf(model: SessionModel, seed: u64)
    requires
        model.wf(),
        model.playing is Some,
    ensures
        model.after_end(seed).0.wf(),
        model.after_end(seed).1 matches Some(index) ==> index < model.names.len(),
{
    let index = model.playing->0;
    let listed = model.listed();
    let (next, queue) = next_after(
        model.queue,
        listed,
        index,
        model.repeat_mode,
        model.shuffle,
        seed,
    );
    crate::search::playlist_members(model.names, model.query);
    if model.repeat_mode != RepeatMode::One {
        crate::playlist::next_track_is_listed(
            model.queue,
            listed,
            index,
            model.repeat_mode,
            model.shuffle,
            seed,
        );
    }
    crate::shuffle::lemma_filtered(model.queue, |i: usize| listed.contains(i));
    crate::shuffle::refilled_queue_holds_the_others(listed, Some(index), seed);
    let rest = crate::playlist::queued(model.queue, listed);
    let refilled = shuffled(others(listed, Some(index)), seed);
    assert forall|k: int| 0 <= k < queue.len() implies #[trigger] queue[k] < model.names.len() by {
        if model.repeat_mode != RepeatMode::One && model.shuffle {
            if rest.len() > 0 {
                assert(queue[k] == rest[k + 1]);
                assert(rest.contains(rest[k + 1]));
            } else if model.repeat_mode == RepeatMode::All {
                if refilled.len() > 0 {
                    assert(queue[k] == refilled[k]);
                    assert(refilled.contains(refilled[k]));
                }
            }
        }
    }
}

/// A text between two others.
fn make_sentence(before: &str, middle: &str, after: &str) -> (text: String)
    ensures
        text@ == sentence(before@, middle@, after@),
{
    let mut text = before.to_owned();
    text.append(middle);
    text.append(after);
    text
}

impl Session {
    /// Whether every track that the session speaks of is one that there is.
    pub open spec fn wf(&self) -> bool {
        self@.wf()
    }

    /// A session with the tracks `files`: the first is selected and none plays. `None` if
    /// there is no track.
    pub fn new(files: Vec<TrackFile>) -> (session: Option<Session>)
        ensures
            session is None <==> files@.len() == 0,
            session matches Some(session) ==> session.wf() && session@ == (SessionModel {
                names: names_of(files@),
                current: 0,
                playing: None,
                visual: None,
                pending: None,
                query: Seq::empty(),
                searching: false,
                repeat_mode: RepeatMode::Off,
                shuffle: false,
                queue: Seq::empty(),
                metadata: None,
                theme: VisualizerTheme::Cyberpunk,
                status: "Use / to search, j/k to select, Enter to play, Left/Right to seek."@,
            }),
            session matches Some(session) ==> queue_is_fresh(session@) && follows_playback(session@),
    {
        if files.len() == 0 {
            return None;
        }
        Some(
            Session {
                files,
                current_index: 0,
                playing_index: None,
                visual: None,
                pending: None,
                search_query: String::new(),
                is_searching: false,
                repeat_mode: RepeatMode::Off,
                shuffle: false,
                shuffle_queue: Vec::new(),
                metadata: None,
                theme: VisualizerTheme::Cyberpunk,
                status: "Use / to search, j/k to select, Enter to play, Left/Right to seek.".to_owned(),
            },
        )
    }

    /// The tracks that the search finds.
    pub fn playlist(&self) -> (indices: Vec<usize>)
        ensures
            indices@ == self@.listed(),
            crate::search::is_playlist(self@.names, self@.query, indices@),
    {
        fuzzy_track_indices(&self.files, self.search_query.as_str())
    }

    /// Takes in news of the analysis of a track, and tells whether the meter starts anew.
    pub fn analyzed(&mut self, update: AnalysisUpdate) -> (clear_meter: bool)
        requires
            old(self).wf(),
            old(self).pending is Some,
            update matches AnalysisUpdate::Report(AnalysisMessage::Preview(visual)) ==> visual.wf(),
            update matches AnalysisUpdate::Report(AnalysisMessage::Complete(visual)) ==> visual.wf(),
        ensures
            final(self).wf(),
            (final(self)@, clear_meter) == old(self)@.after_update(update),
    {
        let index: usize = self.pending.unwrap();
        let plays: bool = match self.playing_index {
            Some(playing) => playing == index,
            None => false,
        };
        assert(self@.names[index as int] == crate::track::name_of(self.files@[index as int]));
        let clear_meter: bool = match update {
            AnalysisUpdate::Report(AnalysisMessage::Preview(visual)) => {
                if plays {
                    self.visual = Some(visual);
                }
                plays
            },
            AnalysisUpdate::Report(AnalysisMessage::Complete(visual)) => {
                self.pending = None;
                if plays {
                    self.visual = Some(visual);
                    let name = display_name(&self.files[index]);
                    self.status = make_sentence("Playing ", name.as_str(), ".");
                }
                plays
            },
            AnalysisUpdate::Report(AnalysisMessage::Failed(error)) => {
                self.pending = None;
                if plays {
                    let name = display_name(&self.files[index]);
                    let mut status = make_sentence(
                        "Spectrum unavailable for ",
                        name.as_str(),
                        ": ",
                    );
                    status.append(error.as_str());
                    self.status = status;
                }
                false
            },
            AnalysisUpdate::Disconnected => {
                self.pending = None;
                self.status = "Spectrum analysis stopped.".to_owned();
                false
            },
        };
        assert(self@ =~= old(self)@.after_update(update).0);
        clear_meter
    }

    /// Ends the track that plays, and tells which one is to be played next. The meter
    /// starts anew.
    pub fn track_ended(&mut self, seed: u64) -> (next: Option<usize>)
        requires
            old(self).wf(),
            old(self).playing_index is Some,
        ensures
            final(self).wf(),
            (final(self)@, next) == old(self)@.after_end(seed),
            next matches Some(index) ==> index < final(self)@.names.len(),
    {
        proof {
            lemma_end_wf(self@, seed);
        }
        let index: usize = self.playing_index.unwrap();
        let indices = self.playlist();
        self.playing_index = None;
        self.visual = None;
        self.pending = None;
        self.metadata = None;
        let next: Option<usize> = next_track(
            &mut self.shuffle_queue,
            &indices,
            index,
            self.repeat_mode,
            self.shuffle,
            seed,
        );
        match next {
            Some(following) => {
                self.current_index = following;
            },
            None => {
                self.status = "Finished.".to_owned();
            },
        }
        assert(self@ =~= old(self)@.after_end(seed).0);
        next
    }

    /// Takes in whether the track `index` could be played, and what its tags say. If
    /// `reshuffle` holds, shuffled play starts over with the other tracks, in an order that
    /// `seed` decides. The meter starts anew.
    pub fn started(
        &mut self,
        index: usize,
        outcome: Result<(), String>,
        metadata: Option<TrackMetadata>,
        reshuffle: bool,
        seed: u64,
    )
        requires
            old(self).wf(),
            index < old(self).files@.len(),
        ensures
            final(self).wf(),
            final(self)@ == old(self)@.after_start(index, outcome, metadata, reshuffle, seed),
    {
        assert(self@.names[index as int] == crate::track::name_of(self.files@[index as int]));
        let name = display_name(&self.files[index]);
        self.visual = None;
        self.metadata = metadata;
        match outcome {
            Ok(_) => {
                self.playing_index = Some(index);
                self.pending = Some(index);
                self.status = make_sentence("Playing ", name.as_str(), ".");
            },
            Err(error) => {
                self.playing_index = None;
                self.pending = None;
                let mut status = make_sentence("Could not play ", name.as_str(), ": ");
                status.append(error.as_str());
                self.status = status;
            },
        }
        if reshuffle && self.shuffle {
            self.refill(seed);
        }
        assert(self@ =~= old(self)@.after_start(index, outcome, metadata, reshuffle, seed));
    }

    /// Fills the shuffle queue anew.
    fn refill(&mut self, seed: u64)
        requires
            old(self).wf(),
        ensures
            final(self).wf(),
            final(self).files == old(self).files,
            final(self)@ == old(self)@.refilled(seed),
    {
        proof {
            lemma_refilled_wf(self@, seed);
        }
        let indices = self.playlist();
        refill_shuffle_queue(&mut self.shuffle_queue, &indices, self.playing_index, seed);
        assert(self@ =~= old(self)@.refilled(seed));
    }

    /// Selects a track that the search finds, where it finds one.
    pub fn settle_selection(&mut self)
        requires
            old(self).wf(),
        ensures
            final(self).wf(),
            final(self)@ == old(self)@.settled(),
    {
        proof {
            lemma_first_selected_wf(self@);
        }
        let indices = self.playlist();
        if find_position(&indices, self.current_index).is_none() && indices.len() > 0 {
            self.current_index = indices[0];
        }
        assert(self@ =~= old(self)@.settled());
    }

    /// Takes in a key that goes to the search.
    fn search_key(&mut self, key: Key)
        requires
            old(self).wf(),
        ensures
            final(self).wf(),
            final(self)@ == old(self)@.after_search_key(key),
    {
        match key {
            Key::Esc => {
                self.is_searching = false;
                self.search_query = String::new();
                self.status = "Search cleared.".to_owned();
            },
            Key::Enter => {
                self.is_searching = false;
            },
            Key::Backspace => {
                let _ = self.search_query.pop();
            },
            Key::Char(c) => {
                if !is_control(c) {
                    self.search_query.push(c);
                }
            },
            _ => {},
        }
        proof {
            lemma_first_selected_wf(self@);
        }
        let indices = self.playlist();
        if indices.len() > 0 {
            self.current_index = indices[0];
        }
        assert(self@ =~= old(self)@.after_search_key(key));
    }

    /// Takes in a seek key.
    fn seek_key(&mut self, position: PlayTime, delta: i64) -> (action: Action)
        requires
            old(self).wf(),
            position.wf(),
        ensures
            final(self).wf(),
            (final(self)@, action) == old(self)@.after_seek_key(position, delta as int),
    {
        let duration: Option<PlayTime> = known_duration(self.visual.as_ref());
        match seek_by(position, duration, self.playing_index.is_some(), delta) {
            Ok(target) => Action::Seek { target },
            Err(error) => {
                let mut status = "Could not seek: ".to_owned();
                status.append(error.message());
                self.status = status;
                assert(self@ =~= old(self)@.after_seek_key(position, delta as int).0);
                Action::Stay
            },
        }
    }

    /// Takes in the space key.
    fn space_key(&mut self, is_paused: bool) -> (action: Action)
        requires
            old(self).wf(),
        ensures
            final(self).wf(),
            (final(self)@, action) == old(self)@.after_space(is_paused),
    {
        let action: Action = match self.playing_index {
            Some(index) => {
                assert(self@.names[index as int] == crate::track::name_of(
                    self.files@[index as int],
                ));
                let name = display_name(&self.files[index]);
                if is_paused {
                    self.status = make_sentence("Playing ", name.as_str(), ".");
                    Action::Resume
                } else {
                    self.status = make_sentence("Paused ", name.as_str(), ".");
                    Action::Pause
                }
            },
            None => {
                let indices = self.playlist();
                if find_position(&indices, self.current_index).is_some() {
                    Action::Start { index: self.current_index }
                } else {
                    self.status = "No matching track selected.".to_owned();
                    Action::Stay
                }
            },
        };
        assert(self@ =~= old(self)@.after_space(is_paused).0);
        action
    }

    /// Takes in the key that switches shuffled play.
    fn shuffle_key(&mut self, seed: u64)
        requires
            old(self).wf(),
        ensures
            final(self).wf(),
            final(self)@ == old(self)@.after_shuffle_key(seed),
    {
        if self.shuffle {
            self.shuffle = false;
            self.shuffle_queue = Vec::new();
            self.status = "Shuffle disabled.".to_owned();
        } else {
            self.shuffle = true;
            self.status = "Shuffle enabled.".to_owned();
            self.refill(seed);
        }
        assert(self@ =~= old(self)@.after_shuffle_key(seed));
    }

    /// Takes in a key that does not go to the search.
    fn player_key(&mut self, key: Key, position: PlayTime, is_paused: bool, seed: u64) -> (action:
        Action)
        requires
            old(self).wf(),
            position.wf(),
        ensures
            final(self).wf(),
            (final(self)@, action) == old(self)@.after_player_key(key, position, is_paused, seed),
    {
        proof {
            lemma_selection_wf(self@, -1);
            lemma_selection_wf(self@, 1);
        }
        let action: Action = match key {
            Key::Left => self.seek_key(position, -SEEK_STEP_SECONDS),
            Key::Right => self.seek_key(position, SEEK_STEP_SECONDS),
            Key::Up => {
                let indices = self.playlist();
                self.current_index = move_selection(&indices, self.current_index, -1);
                Action::Stay
            },
            Key::Down => {
                let indices = self.playlist();
                self.current_index = move_selection(&indices, self.current_index, 1);
                Action::Stay
            },
            Key::Enter => {
                let indices = self.playlist();
                if find_position(&indices, self.current_index).is_some() {
                    Action::Restart { index: self.current_index }
                } else {
                    self.status = "No matching track selected.".to_owned();
                    Action::Stay
                }
            },
            Key::Esc => {
                if self.search_query.as_str().unicode_len() == 0 {
                    Action::Quit
                } else {
                    self.search_query = String::new();
                    self.current_index = 0;
                    self.status = "Search cleared.".to_owned();
                    Action::Stay
                }
            },
            Key::Char('+') => Action::VolumeUp,
            Key::Char('-') => Action::VolumeDown,
            Key::Char('/') => {
                self.is_searching = true;
                self.status = "Type to fuzzy-search tracks. Esc clears search.".to_owned();
                Action::Stay
            },
            Key::Char('a') | Key::Char('A') | Key::Char('r') | Key::Char('R') => {
                self.repeat_mode = self.repeat_mode.next();
                self.status = make_sentence("Repeat mode set to ", self.repeat_mode.name(), ".");
                Action::Stay
            },
            Key::Char('s') | Key::Char('S') => {
                self.shuffle_key(seed);
                Action::Stay
            },
            Key::Char('t') | Key::Char('T') => {
                self.theme = self.theme.next();
                self.status = make_sentence("Visualizer theme set to ", self.theme.name(), ".");
                Action::Stay
            },
            Key::Char(' ') => self.space_key(is_paused),
            Key::Char('q') => Action::Quit,
            _ => Action::Stay,
        };
        assert(self@ =~= old(self)@.after_player_key(key, position, is_paused, seed).0);
        action
    }

    /// Takes in a key, and tells what is to be done. `position` is the position in the
    /// track that plays, `is_paused` whether playback is held, and `seed` decides the order
    /// if the shuffle queue is filled.
    pub fn press(&mut self, key: Key, position: PlayTime, is_paused: bool, seed: u64) -> (action:
        Action)
        requires
            old(self).wf(),
            position.wf(),
        ensures
            final(self).wf(),
            (final(self)@, action) == old(self)@.after_key(key, position, is_paused, seed),
    {
        if self.is_searching {
            self.search_key(key);
            Action::Stay
        } else {
            self.player_key(key, position, is_paused, seed)
        }
    }

    /// Takes in whether a seek was successful, and tells whether the meter starts anew.
    pub fn seeked(&mut self, outcome: Result<PlayTime, String>) -> (clear_meter: bool)
        requires
            old(self).wf(),
        ensures
            final(self).wf(),
            (final(self)@, clear_meter) == old(self)@.after_seek(outcome),
    {
        let clear_meter: bool = match outcome {
            Ok(position) => {
                self.status = make_sentence("Seeked to ", format_duration(position).as_str(), ".");
                true
            },
            Err(error) => {
                let mut status = "Could not seek: ".to_owned();
                status.append(error.as_str());
                self.status = status;
                false
            },
        };
        assert(self@ =~= old(self)@.after_seek(outcome).0);
        clear_meter
    }

    /// Takes in the volume after it was changed, as a percentage.
    pub fn volume_changed(&mut self, percent: &str)
        requires
            old(self).wf(),
        ensures
            final(self).wf(),
            final(self)@ == old(self)@.saying(sentence("Volume "@, percent@, "."@)),
    {
        self.status = make_sentence("Volume ", percent, ".");
        assert(self@ =~= old(self)@.saying(sentence("Volume "@, percent@, "."@)));
    }
}

/// The program is left by `q`, or by the escape key where nothing is searched for, and by
/// no key that goes to the search.
pub proof fn quits_on_request_only(
    model: SessionModel,
    key: Key,
    position: PlayTime,
    is_paused: bool,
    seed: u64,
)
    ensures
        model.after_key(key, position, is_paused, seed).1 == Action::Quit <==> !model.searching && (key
            == Key::Char('q') || (key == Key::Esc && model.query.len() == 0)),
{
}

/// Keys that go to the search leave playback alone: they change what is searched for, the
/// selection and the status, and nothing is to be done for them.
pub proof fn search_leaves_playback_alone(
    model: SessionModel,
    key: Key,
    position: PlayTime,
    is_paused: bool,
    seed: u64,
)
    requires
        model.searching,
    ensures
        ({
            let (next, action) = model.after_key(key, position, is_paused, seed);
            &&& action == Action::Stay
            &&& next == SessionModel {
                query: next.query,
                searching: next.searching,
                current: next.current,
                status: next.status,
                ..model
            }
        }),
{
}

/// The backspace key takes back the character typed before it.
pub proof fn backspace_takes_back(model: SessionModel, c: char)
    requires
        !control(c),
    ensures
        model.after_search_key(Key::Char(c)).query == model.query.push(c),
        model.after_search_key(Key::Char(c)).after_search_key(Key::Backspace).query == model.query,
{
    assert(model.query.push(c).drop_last() =~= model.query);
}

/// Where the search finds anything, a track that it finds is selected after each key that
/// goes to the search and whenever the selection settles.
pub proof fn selection_is_listed(model: SessionModel, key: Key)
    ensures
        model.settled().listed().len() > 0 ==> model.settled().listed().contains(
            model.settled().current,
        ),
        model.after_search_key(key).listed().len() > 0 ==> model.after_search_key(
            key,
        ).listed().contains(model.after_search_key(key).current),
{
    let listed = model.listed();
    if listed.len() > 0 {
        assert(listed.contains(listed[0]));
    }
    let typed = model.after_search_key(key).listed();
    if typed.len() > 0 {
        assert(typed.contains(typed[0]));
    }
}

/// Clearing the search brings back every track, in its place.
pub proof fn clearing_lists_everything(
    model: SessionModel,
    position: PlayTime,
    is_paused: bool,
    seed: u64,
)
    requires
        model.wf(),
        model.searching || model.query.len() > 0,
    ensures
        ({
            let (next, action) = model.after_key(Key::Esc, position, is_paused, seed);
            &&& action == Action::Stay
            &&& !next.searching
            &&& next.listed() == Seq::new(model.names.len(), |i: int| i as usize)
            &&& next.current == 0
        }),
{
    let none = Seq::<char>::empty();
    crate::search::playlist_exists(model.names, none);
    assert(playlist(model.names, none)[0] == 0);
}

/// A key starts a track only if the search finds it.
pub proof fn keys_start_listed_tracks(
    model: SessionModel,
    key: Key,
    position: PlayTime,
    is_paused: bool,
    seed: u64,
)
    ensures
        match model.after_key(key, position, is_paused, seed).1 {
            Action::Start { index } => model.playing is None && index == model.current
                && model.listed().contains(index),
            Action::Restart { index } => index == model.current && model.listed().contains(index),
            _ => true,
        },
{
}

/// A seek is asked for only while a track plays, and does not lead beyond its end.
pub proof fn seeks_stay_in_track(
    model: SessionModel,
    key: Key,
    position: PlayTime,
    is_paused: bool,
    seed: u64,
)
    requires
        model.wf(),
        position.wf(),
    ensures
        model.after_key(key, position, is_paused, seed).1 matches Action::Seek { target }
            ==> model.playing is Some && target.wf() && (duration_of(model.visual)
            matches Some(end) ==> target.total() <= end.total()),
{
}

/// Switching shuffled play on queues every track that the search finds but the one that
/// plays, each once; switching it off empties the queue.
pub proof fn shuffle_key_fills_and_empties(model: SessionModel, seed: u64)
    requires
        model.wf(),
    ensures
        ({
            let next = model.after_shuffle_key(seed);
            &&& next.shuffle == !model.shuffle
            &&& next.shuffle ==> next.queue.no_duplicates() && forall|i: usize| #[trigger]
                next.queue.contains(i) <==> model.listed().contains(i) && Some(i) != model.playing
            &&& !next.shuffle ==> next.queue.len() == 0
        }),
{
    crate::search::playlist_members(model.names, model.query);
    crate::shuffle::refilled_queue_holds_the_others(model.listed(), model.playing, seed);
}

/// Whether the shuffle queue holds tracks that are still to be played: none twice, not the
/// one that plays, and none at all while play is not shuffled.
pub open spec fn queue_is_fresh(model: SessionModel) -> bool {
    &&& model.queue.no_duplicates()
    &&& model.playing matches Some(index) ==> !model.queue.contains(index)
    &&& !model.shuffle ==> model.queue.len() == 0
}

/// A refilled queue is fresh.
proof fn lemma_refilled_fresh(model: SessionModel, seed: u64)
    requires
        model.wf(),
        model.shuffle,
    ensures
        queue_is_fresh(model.refilled(seed)),
{
    crate::search::playlist_members(model.names, model.query);
    crate::shuffle::refilled_queue_holds_the_others(model.listed(), model.playing, seed);
}

/// The shuffle queue holds no track twice and not the one that plays, and is empty while
/// play is not shuffled: news of the analysis, keys, seeks and the start of a track by a
/// key keep it so.
pub proof fn queue_stays_fresh(
    model: SessionModel,
    update: AnalysisUpdate,
    key: Key,
    position: PlayTime,
    is_paused: bool,
    index: usize,
    outcome: Result<(), String>,
    metadata: Option<TrackMetadata>,
    sought: Result<PlayTime, String>,
    seed: u64,
)
    requires
        model.wf(),
        queue_is_fresh(model),
        index < model.names.len(),
    ensures
        queue_is_fresh(model.after_update(update).0),
        queue_is_fresh(model.after_start(index, outcome, metadata, true, seed)),
        queue_is_fresh(model.settled()),
        queue_is_fresh(model.after_key(key, position, is_paused, seed).0),
        queue_is_fresh(model.after_seek(sought).0),
{
    if model.shuffle {
        let begun = model.after_start(index, outcome, metadata, false, seed);
        lemma_refilled_fresh(begun, seed);
        assert(model.after_start(index, outcome, metadata, true, seed) == begun.refilled(seed));
    } else {
        let switched = SessionModel { shuffle: true, status: "Shuffle enabled."@, ..model };
        lemma_refilled_fresh(switched, seed);
        assert(model.after_shuffle_key(seed) == switched.refilled(seed));
    }
}

/// The shuffle queue stays fresh when a track ends and the next one is started.
pub proof fn queue_stays_fresh_at_the_end(
    model: SessionModel,
    outcome: Result<(), String>,
    metadata: Option<TrackMetadata>,
    seed: u64,
    later_seed: u64,
)
    requires
        model.wf(),
        queue_is_fresh(model),
        model.playing is Some,
    ensures
        queue_is_fresh(model.after_end(seed).0),
        model.after_end(seed).1 matches Some(index) ==> queue_is_fresh(
            model.after_end(seed).0.after_start(index, outcome, metadata, false, later_seed),
        ),
{
    crate::search::playlist_members(model.names, model.query);
    if model.repeat_mode != RepeatMode::One && model.shuffle {
        crate::playlist::shuffle_plays_each_once(
            model.queue,
            model.listed(),
            model.playing->0,
            model.repeat_mode,
            seed,
        );
    }
}

/// Whether what is analysed and shown in the meter is the track that plays.
pub open spec fn follows_playback(model: SessionModel) -> bool {
    &&& model.pending is Some ==> model.pending == model.playing
    &&& model.visual is Some ==> model.playing is Some
}

/// What is analysed and shown in the meter is always the track that plays: every step of a
/// session keeps it so.
pub proof fn analysis_follows_playback(
    model: SessionModel,
    update: AnalysisUpdate,
    key: Key,
    position: PlayTime,
    is_paused: bool,
    index: usize,
    outcome: Result<(), String>,
    metadata: Option<TrackMetadata>,
    reshuffle: bool,
    sought: Result<PlayTime, String>,
    seed: u64,
)
    requires
        follows_playback(model),
    ensures
        model.pending is Some ==> follows_playback(model.after_update(update).0),
        follows_playback(model.after_end(seed).0),
        follows_playback(model.after_start(index, outcome, metadata, reshuffle, seed)),
        follows_playback(model.settled()),
        follows_playback(model.after_key(key, position, is_paused, seed).0),
        follows_playback(model.after_seek(sought).0),
{
}

/// A track that could not be played leaves nothing playing.
pub proof fn failed_start_plays_nothing(
    model: SessionModel,
    index: usize,
    outcome: Result<(), String>,
    metadata: Option<TrackMetadata>,
    reshuffle: bool,
    seed: u64,
)
    ensures
        ({
            let next = model.after_start(index, outcome, metadata, reshuffle, seed);
            &&& outcome is Ok <==> next.playing == Some(index)
            &&& outcome is Err <==> next.playing is None
            &&& next.visual is None
        }),
{
}

/// At the end of a track nothing plays until the next one is started; where there is a next
/// one, it is selected.
pub proof fn end_selects_the_next(model: SessionModel, seed: u64)
    ensures
        ({
            let (next, following) = model.after_end(seed);
            &&& next.playing is None
            &&& next.names == model.names
            &&& following matches Some(index) ==> next.current == index
            &&& following is None ==> next.current == model.current
        }),
{
}

/// The model of a session holds what the session holds.
pub proof fn model_holds_the_session(session: Session)
    ensures
        session@.names == names_of(session.files@),
        session@.current == session.current_index,
        session@.playing == session.playing_index,
        session@.visual == session.visual,
        session@.pending == session.pending,
        session@.query == session.search_query@,
        session@.searching == session.is_searching,
        session@.repeat_mode == session.repeat_mode,
        session@.shuffle == session.shuffle,
        session@.queue == session.shuffle_queue@,
        session@.metadata == session.metadata,
        session@.theme == session.theme,
        session@.status == session.status@,
{
}

/// The tracks that the search finds are those that match what is searched for now, all of
/// them for a blank search.
pub proof fn search_decides_what_is_listed(model: SessionModel, index: usize)
    requires
        model.wf(),
    ensures
        model.listed() == playlist(model.names, model.query),
        model.listed().contains(index) <==> index < model.names.len() && (crate::search::blank(
            model.query,
        ) || crate::search::score_of(model.names[index as int], model.query) is Some),
{
    crate::search::playlist_members(model.names, model.query);
}

/// Saying something changes nothing but what is said.
pub proof fn saying_changes_the_status_only(model: SessionModel, status: Seq<char>)
    ensures
        model.saying(status).status == status,
        model.saying(status) == (SessionModel { status: model.saying(status).status, ..model }),
{
}

/// Filling the shuffle queue changes nothing else; it holds the other tracks that the
/// search finds, each once.
pub proof fn refilling_changes_the_queue_only(model: SessionModel, seed: u64, index: usize)
    requires
        model.wf(),
    ensures
        model.refilled(seed) == (SessionModel { queue: model.refilled(seed).queue, ..model }),
        model.refilled(seed).queue == shuffled(others(model.listed(), model.playing), seed),
        model.refilled(seed).queue.no_duplicates(),
        model.refilled(seed).queue.contains(index) <==> model.listed().contains(index) && Some(index)
            != model.playing,
{
    crate::search::playlist_members(model.names, model.query);
    crate::shuffle::refilled_queue_holds_the_others(model.listed(), model.playing, seed);
}

/// A selection that the search finds stays; one that it does not find gives way to the
/// first track that it finds, where it finds any. Nothing else changes.
pub proof fn settling_keeps_a_listed_selection(model: SessionModel)
    ensures
        model.settled() == (SessionModel { current: model.settled().current, ..model }),
        model.listed().contains(model.current) ==> model.settled().current == model.current,
        model.listed().len() == 0 ==> model.settled().current == model.current,
        model.listed().len() > 0 && !model.listed().contains(model.current)
            ==> model.settled().current == model.listed()[0],
{
    if model.listed().contains(model.current) {
        assert(model.listed().len() > 0);
    }
}

/// While the search takes the keys, a printable character is added to what is searched for,
/// backspace takes the last one away, and no other key but escape changes it; escape and
/// enter end the search, and escape clears it. The first track that is then found is
/// selected.
pub proof fn search_keys_edit_the_query(
    model: SessionModel,
    key: Key,
    position: PlayTime,
    is_paused: bool,
    seed: u64,
)
    requires
        model.searching,
    ensures
        ({
            let next = model.after_key(key, position, is_paused, seed).0;
            let found = playlist(next.names, next.query);
            &&& next.query == (match key {
                Key::Char(c) => if control(c) {
                    model.query
                } else {
                    model.query + seq![c]
                },
                Key::Backspace => model.query.take(if model.query.len() > 0 {
                    model.query.len() - 1
                } else {
                    0
                }),
                Key::Esc => Seq::empty(),
                _ => model.query,
            })
            &&& next.searching <==> key != Key::Esc && key != Key::Enter
            &&& next.status == (if key == Key::Esc {
                "Search cleared."@
            } else {
                model.status
            })
            &&& next.current == (if found.len() > 0 {
                found[0]
            } else {
                model.current
            })
        }),
{
    let next = model.after_key(key, position, is_paused, seed).0;
    match key {
        Key::Char(c) => {
            assert(model.query.push(c) =~= model.query + seq![c]);
        },
        Key::Backspace => {
            if model.query.len() > 0 {
                assert(model.query.drop_last() =~= model.query.take(model.query.len() - 1));
            } else {
                assert(model.query =~= model.query.take(0));
            }
        },
        _ => {},
    }
}

/// Outside the search the enter key starts the selected track over whatever plays, whenever
/// the search finds it; else it says that there is none.
pub proof fn enter_plays_the_selected_track(
    model: SessionModel,
    position: PlayTime,
    is_paused: bool,
    seed: u64,
)
    requires
        !model.searching,
    ensures
        ({
            let (next, action) = model.after_key(Key::Enter, position, is_paused, seed);
            &&& model.listed().contains(model.current) ==> next == model && action
                == (Action::Restart { index: model.current })
            &&& !model.listed().contains(model.current) ==> next == (SessionModel {
                status: "No matching track selected."@,
                ..model
            }) && action == Action::Stay
        }),
{
}

/// Outside the search the space key holds what plays or goes on with it, and says so; where
/// nothing plays it starts the selected track, if the search finds it.
pub proof fn space_plays_and_pauses(
    model: SessionModel,
    position: PlayTime,
    is_paused: bool,
    seed: u64,
)
    requires
        !model.searching,
    ensures
        ({
            let (next, action) = model.after_key(Key::Char(' '), position, is_paused, seed);
            &&& next == (SessionModel { status: next.status, ..model })
            &&& model.playing matches Some(index) ==> {
                let name = model.names[index as int];
                &&& is_paused ==> action == Action::Resume && next.status == "Playing "@ + name + "."@
                &&& !is_paused ==> action == Action::Pause && next.status == "Paused "@ + name + "."@
            }
            &&& model.playing is None && model.listed().contains(model.current) ==> action == (
            Action::Start { index: model.current }) && next.status == model.status
            &&& model.playing is None && !model.listed().contains(model.current) ==> action
                == Action::Stay && next.status == "No matching track selected."@
        }),
{
}

/// Outside the search the keys up and down move the selection by one track of those that
/// the search finds, and do nothing else.
pub proof fn arrows_move_the_selection(
    model: SessionModel,
    position: PlayTime,
    is_paused: bool,
    seed: u64,
)
    requires
        !model.searching,
    ensures
        model.after_key(Key::Up, position, is_paused, seed) == (
            SessionModel { current: selection_after(model.listed(), model.current, -1), ..model },
            Action::Stay,
        ),
        model.after_key(Key::Down, position, is_paused, seed) == (
            SessionModel { current: selection_after(model.listed(), model.current, 1), ..model },
            Action::Stay,
        ),
{
}

/// Outside the search the keys left and right ask for a seek by five seconds back and
/// ahead, within the track where its length is known; where nothing plays they say so. They
/// change nothing else.
pub proof fn arrows_seek_five_seconds(
    model: SessionModel,
    position: PlayTime,
    is_paused: bool,
    seed: u64,
)
    requires
        model.wf(),
        position.wf(),
        !model.searching,
    ensures
        ({
            let (left, back) = model.after_key(Key::Left, position, is_paused, seed);
            let (right, ahead) = model.after_key(Key::Right, position, is_paused, seed);
            let end = match duration_of(model.visual) {
                Some(end) => end.total(),
                None => crate::time::longest(),
            };
            let asked_back = position.total() - 5_000_000_000;
            let asked_ahead = position.total() + 5_000_000_000;
            &&& model.playing is Some ==> left == model && right == model && back is Seek && ahead is Seek
            &&& model.playing is Some ==> back->target.total() == (if asked_back < 0 {
                0
            } else if asked_back > end {
                end
            } else {
                asked_back
            })
            &&& model.playing is Some ==> ahead->target.total() == (if asked_ahead > end {
                end
            } else {
                asked_ahead
            })
            &&& model.playing is None ==> back == Action::Stay && ahead == Action::Stay && left == right
                && left == (SessionModel {
                status: "Could not seek: "@ + "nothing is playing"@,
                ..model
            })
        }),
{
    let length = total_of(duration_of(model.visual));
    crate::time::seek_goes_where_asked(position.total(), length, -5);
    crate::time::seek_goes_where_asked(position.total(), length, 5);
    crate::time::spans_are_their_nanoseconds(seek_goal(position.total(), length, -5));
    crate::time::spans_are_their_nanoseconds(seek_goal(position.total(), length, 5));
}

/// Outside the search `+` and `-` ask for another volume and change nothing; `q` asks to
/// leave and changes nothing.
pub proof fn volume_keys_and_quit_change_nothing(
    model: SessionModel,
    position: PlayTime,
    is_paused: bool,
    seed: u64,
)
    requires
        !model.searching,
    ensures
        model.after_key(Key::Char('+'), position, is_paused, seed) == (model, Action::VolumeUp),
        model.after_key(Key::Char('-'), position, is_paused, seed) == (model, Action::VolumeDown),
        model.after_key(Key::Char('q'), position, is_paused, seed) == (model, Action::Quit),
{
}

/// Outside the search a slash starts one, with what was searched for before, and says how it
/// goes.
pub proof fn slash_starts_a_search(
    model: SessionModel,
    position: PlayTime,
    is_paused: bool,
    seed: u64,
)
    requires
        !model.searching,
    ensures
        model.after_key(Key::Char('/'), position, is_paused, seed) == (
            SessionModel {
                searching: true,
                status: "Type to fuzzy-search tracks. Esc clears search."@,
                ..model
            },
            Action::Stay,
        ),
{
}

/// Outside the search escape clears what is searched for, where there is anything, and
/// selects the first track; else it asks to leave.
pub proof fn escape_clears_or_leaves(
    model: SessionModel,
    position: PlayTime,
    is_paused: bool,
    seed: u64,
)
    requires
        !model.searching,
    ensures
        model.query.len() == 0 ==> model.after_key(Key::Esc, position, is_paused, seed) == (
            model,
            Action::Quit,
        ),
        model.query.len() > 0 ==> model.after_key(Key::Esc, position, is_paused, seed) == (
            SessionModel {
                query: Seq::empty(),
                current: 0,
                status: "Search cleared."@,
                ..model
            },
            Action::Stay,
        ),
{
}

/// Outside the search the repeat keys switch from off to all, to one and to off again, and
/// say so; they change nothing else.
pub proof fn repeat_keys_switch_the_mode(
    model: SessionModel,
    letter: char,
    position: PlayTime,
    is_paused: bool,
    seed: u64,
)
    requires
        !model.searching,
        letter == 'a' || letter == 'A' || letter == 'r' || letter == 'R',
    ensures
        ({
            let (next, action) = model.after_key(Key::Char(letter), position, is_paused, seed);
            &&& action == Action::Stay
            &&& next == (SessionModel {
                repeat_mode: next.repeat_mode,
                status: next.status,
                ..model
            })
            &&& model.repeat_mode == RepeatMode::Off ==> next.repeat_mode == RepeatMode::All
                && next.status == "Repeat mode set to "@ + "All"@ + "."@
            &&& model.repeat_mode == RepeatMode::All ==> next.repeat_mode == RepeatMode::One
                && next.status == "Repeat mode set to "@ + "One"@ + "."@
            &&& model.repeat_mode == RepeatMode::One ==> next.repeat_mode == RepeatMode::Off
                && next.status == "Repeat mode set to "@ + "Off"@ + "."@
        }),
{
}

/// Outside the search the theme keys switch to the next theme, and say its name; they change
/// nothing else.
pub proof fn theme_keys_switch_the_theme(
    model: SessionModel,
    letter: char,
    position: PlayTime,
    is_paused: bool,
    seed: u64,
)
    requires
        !model.searching,
        letter == 't' || letter == 'T',
    ensures
        ({
            let (next, action) = model.after_key(Key::Char(letter), position, is_paused, seed);
            &&& action == Action::Stay
            &&& next == (SessionModel { theme: next.theme, status: next.status, ..model })
            &&& next.theme == model.theme.successor()
            &&& next.status == "Visualizer theme set to "@ + next.theme.title() + "."@
        }),
{
}

/// Outside the search the shuffle keys switch shuffled play on, with the other tracks that
/// the search finds queued in shuffled order, and off, with none queued; they say so and
/// change nothing else.
pub proof fn shuffle_keys_switch_shuffled_play(
    model: SessionModel,
    letter: char,
    position: PlayTime,
    is_paused: bool,
    seed: u64,
)
    requires
        !model.searching,
        letter == 's' || letter == 'S',
    ensures
        ({
            let (next, action) = model.after_key(Key::Char(letter), position, is_paused, seed);
            &&& action == Action::Stay
            &&& next == (SessionModel {
                shuffle: !model.shuffle,
                queue: next.queue,
                status: next.status,
                ..model
            })
            &&& !model.shuffle ==> next.status == "Shuffle enabled."@ && next.queue == shuffled(
                others(model.listed(), model.playing),
                seed,
            )
            &&& model.shuffle ==> next.status == "Shuffle disabled."@ && next.queue.len() == 0
        }),
{
}

/// Outside the search every other key does nothing.
pub proof fn other_keys_do_nothing(
    model: SessionModel,
    key: Key,
    position: PlayTime,
    is_paused: bool,
    seed: u64,
)
    requires
        !model.searching,
        key == Key::Backspace || key == Key::Other || (key matches Key::Char(c) && c != '+' && c
            != '-' && c != '/' && c != 'a' && c != 'A' && c != 'r' && c != 'R' && c != 's' && c
            != 'S' && c != 't' && c != 'T' && c != ' ' && c != 'q'),
    ensures
        model.after_key(key, position, is_paused, seed) == (model, Action::Stay),
{
}

/// News of the analysis of the track that plays: spectra are shown, of the whole track with
/// its name said, and a failure is told with its reason; any but a preview ends the
/// analysis. Nothing else changes.
pub proof fn news_of_the_playing_track_are_shown(model: SessionModel, visual: TrackVisual, error: String)
    requires
        model.playing is Some,
        model.pending == model.playing,
    ensures
        ({
            let name = model.names[model.playing->0 as int];
            &&& model.after_update(AnalysisUpdate::Report(AnalysisMessage::Preview(visual))) == (
                SessionModel { visual: Some(visual), ..model },
                true,
            )
            &&& model.after_update(AnalysisUpdate::Report(AnalysisMessage::Complete(visual))) == (
                SessionModel {
                    visual: Some(visual),
                    pending: None,
                    status: "Playing "@ + name + "."@,
                    ..model
                },
                true,
            )
            &&& model.after_update(AnalysisUpdate::Report(AnalysisMessage::Failed(error))) == (
                SessionModel {
                    pending: None,
                    status: "Spectrum unavailable for "@ + name + ": "@ + error@,
                    ..model
                },
                false,
            )
        }),
{
}

/// News of the analysis of another track show nothing: a preview changes nothing, any other
/// report ends the analysis and no more.
pub proof fn news_of_other_tracks_show_nothing(
    model: SessionModel,
    message: AnalysisMessage,
)
    requires
        model.pending is Some,
        model.pending != model.playing,
    ensures
        message is Preview ==> model.after_update(AnalysisUpdate::Report(message)) == (model, false),
        !(message is Preview) ==> model.after_update(AnalysisUpdate::Report(message)) == (
            SessionModel { pending: None, ..model },
            false,
        ),
{
}

/// An analysis that stops without a report is over, and that is said, whatever plays.
pub proof fn a_stopped_analysis_is_told(model: SessionModel)
    ensures
        model.after_update(AnalysisUpdate::Disconnected) == (
            SessionModel { pending: None, status: "Spectrum analysis stopped."@, ..model },
            false,
        ),
{
}

/// At the end of a track what was shown of it goes. The track that follows it is the one
/// that the playlist gives; where there is none, that is said. Nothing else changes but the
/// selection and the shuffle queue.
pub proof fn the_end_clears_what_was_shown(model: SessionModel, seed: u64)
    requires
        model.playing is Some,
    ensures
        ({
            let (next, following) = model.after_end(seed);
            let (track, queue) = next_after(
                model.queue,
                model.listed(),
                model.playing->0,
                model.repeat_mode,
                model.shuffle,
                seed,
            );
            &&& following == track
            &&& next == (SessionModel {
                playing: None,
                visual: None,
                pending: None,
                metadata: None,
                queue,
                current: (match track {
                    Some(index) => index,
                    None => model.current,
                }),
                status: (match track {
                    Some(_) => model.status,
                    None => "Finished."@,
                }),
                ..model
            })
        }),
{
}

/// A track that is started plays and is analysed, and one that cannot be started leaves
/// nothing playing; either is said, with the reason of a failure. What its tags say is kept
/// either way, and nothing is shown of it yet. The selection and the search stay.
pub proof fn a_start_is_told(
    model: SessionModel,
    index: usize,
    outcome: Result<(), String>,
    metadata: Option<TrackMetadata>,
    reshuffle: bool,
    seed: u64,
)
    ensures
        ({
            let next = model.after_start(index, outcome, metadata, reshuffle, seed);
            let name = model.names[index as int];
            &&& next == (SessionModel {
                playing: next.playing,
                pending: next.pending,
                visual: None,
                metadata,
                queue: next.queue,
                status: next.status,
                ..model
            })
            &&& outcome is Ok ==> next.playing == Some(index) && next.pending == Some(index)
                && next.status == "Playing "@ + name + "."@
            &&& outcome matches Err(error) ==> next.playing is None && next.pending is None
                && next.status == "Could not play "@ + name + ": "@ + error@
            &&& reshuffle && model.shuffle ==> next.queue == shuffled(
                others(model.listed(), next.playing),
                seed,
            )
            &&& !(reshuffle && model.shuffle) ==> next.queue == model.queue
        }),
{
}

/// Where a seek led is said, and the meter starts anew; a failure is told with its reason.
pub proof fn a_seek_is_told(model: SessionModel, position: PlayTime, error: String)
    ensures
        model.after_seek(Ok(position)) == (
            SessionModel {
                status: "Seeked to "@ + clock_text(position.secs as nat) + "."@,
                ..model
            },
            true,
        ),
        model.after_seek(Err(error)) == (
            SessionModel { status: "Could not seek: "@ + error@, ..model },
            false,
        ),
{
}

/// A sentence is its parts, one behind the other.
pub proof fn sentences_join_their_parts(before: Seq<char>, middle: Seq<char>, after: Seq<char>)
    ensures
        sentence(before, middle, after).len() == before.len() + middle.len() + after.len(),
        sentence(before, middle, after).take(before.len() as int) == before,
        sentence(before, middle, after).skip((before.len() + middle.len()) as int) == after,
        sentence(before, middle, after).subrange(
            before.len() as int,
            (before.len() + middle.len()) as int,
        ) == middle,
{
    let text = sentence(before, middle, after);
    assert(text.take(before.len() as int) =~= before);
    assert(text.skip((before.len() + middle.len()) as int) =~= after);
    assert(text.subrange(before.len() as int, (before.len() + middle.len()) as int) =~= middle);
}

} // verus!
