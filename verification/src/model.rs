//! The editor's state: the project, what is selected, what the pointer is
//! doing, the two history stacks and the position of playback.

use vstd::prelude::*;
use crate::action::{lemma_command_keeps_selection, Action, ActionView};
use crate::midi::{export_midi, midi_file, MAX_EXPORT_NOTES};
use crate::playback::{spec_all_notes_off, spec_play_midi_note, spec_tick_interval, TimedMessage};
use crate::project::{
    first_note_at, note_at, Note, Project, ProjectView, TimeSignature, Track, TrackView,
    LENGTH_FLOOR, MIN_INTERVAL, NOTE_EDGE_WIDTH,
};
use crate::util::{
    clamp_time, decimal, decimal_digits, grid_time, mouse_x_to_interval, mouse_y_to_pitch,
    pointer_pitch, pointer_time, spec_clamp_time,
};
use crate::views::PIANO_KEYS_WIDTH;

verus! {

/// Playback stops once it has passed the end of the project by this much.
/// It is less than a grid step, so that the tick that falls on the end of
/// the last note is still played.
pub const END_TOLERANCE: i64 = 1;

/// Velocity of a note placed with the pointer.
pub const PLACED_VELOCITY: u8 = 127;

/// Milliseconds for which a note sounds when it is tried out.
pub const PREVIEW_DURATION: u32 = 1000;

/// `buttons` of a pointer event while only the primary button is held.
pub const PRIMARY_BUTTON: u16 = 1;

/// `buttons` of a pointer event while only the secondary button is held.
pub const SECONDARY_BUTTON: u16 = 2;

/// A pointer event: the position within the element it was aimed at, in
/// screen units, and the buttons held.
#[derive(Clone, Copy, Debug, PartialEq, Eq, Structural)]
pub struct MouseInput {
    pub x: i32,
    pub y: i32,
    pub buttons: u16,
}

/// The pointer's shape over the piano roll.
#[derive(Clone, Copy, Debug, PartialEq, Eq, Structural)]
pub enum Cursor {
    /// Over no note.
    Auto,
    /// Over the resize handle at either end of a note.
    Resize,
    /// Over the inside of a note.
    Move,
}

/// What the host tells the editor.
#[derive(Clone, Debug, PartialEq, Eq)]
pub enum Msg {
    /// Access to MIDI devices was granted. Holds whether the host found an
    /// output port and took the first.
    MidiAccessGranted(bool),
    MidiAccessRefused,
    /// The host has taken the output port that the user chose.
    SetOutputDevice,
    /// Select the track at the index. An index that names no track selects
    /// nothing.
    SelectTrack(usize),
    DeselectTrack,
    CreateTrack,
    DeleteSelectedTrack,
    RenameSelectedTrack(String),
    SetSelectedTrackInstrument(u8),
    SetProjectName(String),
    SetBpm(u32),
    SetTimeSignatureTop(u32),
    SetTimeSignatureBottom(u32),
    ProgressBarMouseDown(MouseInput),
    ProgressBarMouseUp,
    PianoRollMouseDown(MouseInput),
    PianoRollMouseUp,
    MouseMove(MouseInput),
    TogglePlayback,
    SetPlayProgress(i32),
    /// The playback timer has ticked.
    IncrementPlayProgress,
    /// Try out a note: instrument and pitch.
    PlayMidiNote(u8, u8),
    ExportMidi,
    Undo,
    Redo,
}

/// A message as contracts see it.
pub enum MsgView {
    MidiAccessGranted(bool),
    MidiAccessRefused,
    SetOutputDevice,
    SelectTrack(usize),
    DeselectTrack,
    CreateTrack,
    DeleteSelectedTrack,
    RenameSelectedTrack(Seq<char>),
    SetSelectedTrackInstrument(u8),
    SetProjectName(Seq<char>),
    SetBpm(u32),
    SetTimeSignatureTop(u32),
    SetTimeSignatureBottom(u32),
    ProgressBarMouseDown(MouseInput),
    ProgressBarMouseUp,
    PianoRollMouseDown(MouseInput),
    PianoRollMouseUp,
    MouseMove(MouseInput),
    TogglePlayback,
    SetPlayProgress(i32),
    IncrementPlayProgress,
    PlayMidiNote(u8, u8),
    ExportMidi,
    Undo,
    Redo,
}

impl View for Msg {
    type V = MsgView;

    open spec fn view(&self) -> MsgView {
        match *self {
            Msg::MidiAccessGranted(has_output) => MsgView::MidiAccessGranted(has_output),
            Msg::MidiAccessRefused => MsgView::MidiAccessRefused,
            Msg::SetOutputDevice => MsgView::SetOutputDevice,
            Msg::SelectTrack(index) => MsgView::SelectTrack(index),
            Msg::DeselectTrack => MsgView::DeselectTrack,
            Msg::CreateTrack => MsgView::CreateTrack,
            Msg::DeleteSelectedTrack => MsgView::DeleteSelectedTrack,
            Msg::RenameSelectedTrack(name) => MsgView::RenameSelectedTrack(name@),
            Msg::SetSelectedTrackInstrument(instrument) => MsgView::SetSelectedTrackInstrument(
                instrument,
            ),
            Msg::SetProjectName(name) => MsgView::SetProjectName(name@),
            Msg::SetBpm(bpm) => MsgView::SetBpm(bpm),
            Msg::SetTimeSignatureTop(top) => MsgView::SetTimeSignatureTop(top),
            Msg::SetTimeSignatureBottom(bottom) => MsgView::SetTimeSignatureBottom(bottom),
            Msg::ProgressBarMouseDown(input) => MsgView::ProgressBarMouseDown(input),
            Msg::ProgressBarMouseUp => MsgView::ProgressBarMouseUp,
            Msg::PianoRollMouseDown(input) => MsgView::PianoRollMouseDown(input),
            Msg::PianoRollMouseUp => MsgView::PianoRollMouseUp,
            Msg::MouseMove(input) => MsgView::MouseMove(input),
            Msg::TogglePlayback => MsgView::TogglePlayback,
            Msg::SetPlayProgress(progress) => MsgView::SetPlayProgress(progress),
            Msg::IncrementPlayProgress => MsgView::IncrementPlayProgress,
            Msg::PlayMidiNote(instrument, pitch) => MsgView::PlayMidiNote(instrument, pitch),
            Msg::ExportMidi => MsgView::ExportMidi,
            Msg::Undo => MsgView::Undo,
            Msg::Redo => MsgView::Redo,
        }
    }
}

/// Something for the host to do after an update.
#[derive(Clone, Debug, PartialEq, Eq)]
pub enum Effect {
    /// Hand this message to the next update.
    Send(Msg),
    /// Send these messages to the output port, in this order.
    Play(Vec<TimedMessage>),
    /// Start the playback timer with a period of `period` milliseconds, from
    /// a copy of the tracks as they are now. At each tick send what
    /// `tick_messages` gives for the copy and the playback time, hand
    /// `Msg::IncrementPlayProgress` to the next update, and move the playback
    /// time on by one grid step. The playback time starts at `offset`.
    StartTimer { period: u32, offset: i32 },
    /// Stop the playback timer.
    CancelTimer,
    /// Show this pointer over the piano roll.
    SetCursor(Cursor),
    /// Offer `data` to the user as a file by the name of `file_name`.
    Download { file_name: String, data: Vec<u8> },
}

/// An effect as contracts see it.
pub enum EffectView {
    Send(MsgView),
    Play(Seq<TimedMessage>),
    StartTimer { period: u32, offset: i32 },
    CancelTimer,
    SetCursor(Cursor),
    Download { file_name: Seq<char>, data: Seq<u8> },
}

impl View for Effect {
    type V = EffectView;

    open spec fn view(&self) -> EffectView {
        match *self {
            Effect::Send(msg) => EffectView::Send(msg@),
            Effect::Play(messages) => EffectView::Play(messages@),
            Effect::StartTimer { period, offset } => EffectView::StartTimer { period, offset },
            Effect::CancelTimer => EffectView::CancelTimer,
            Effect::SetCursor(cursor) => EffectView::SetCursor(cursor),
            Effect::Download { file_name, data } => EffectView::Download {
                file_name: file_name@,
                data: data@,
            },
        }
    }
}

/// What an update hands back: whether the screen is to be drawn again, and
/// what the host is to do, in this order.
#[derive(Clone, Debug, PartialEq, Eq)]
pub struct Outcome {
    pub redraw: bool,
    pub effects: Vec<Effect>,
}

/// An outcome as contracts see it.
pub struct OutcomeView {
    pub redraw: bool,
    pub effects: Seq<EffectView>,
}

impl View for Outcome {
    type V = OutcomeView;

    open spec fn view(&self) -> OutcomeView {
        OutcomeView { redraw: self.redraw, effects: self.effects@.map_values(|e: Effect| e@) }
    }
}

/// An outcome without effects.
pub open spec fn quiet(redraw: bool) -> OutcomeView {
    OutcomeView { redraw, effects: Seq::empty() }
}

/// An outcome with one effect.
pub open spec fn with_effect(redraw: bool, effect: EffectView) -> OutcomeView {
    OutcomeView { redraw, effects: seq![effect] }
}

/// What a pointer drag on a note does.
#[derive(Clone, Copy, Debug, PartialEq, Eq, Structural)]
pub enum NoteOperationType {
    /// Dragging the left edge. Holds the note's offset and length from
    /// before the drag.
    DragLeftEdge(i32, i32),
    /// Dragging the right edge. Holds the note's length from before the
    /// drag.
    DragRightEdge(i32),
    /// Moving the note. Holds how far right of the note's start it was
    /// grabbed, and its offset and pitch from before the drag.
    Move(i64, i32, u8),
    /// Moving a note that the same press has just placed.
    CreateAndMove,
}

/// What the pressed pointer is doing.
#[derive(Clone, Copy, Debug, PartialEq, Eq, Structural)]
pub enum MouseOperation {
    /// No button is held, or the press started nothing.
    Idle,
    /// Dragging the playback start along the progress bar.
    DragProgressBar,
    /// Dragging the note at `note_index` of the selected track.
    NoteOperation { note_index: usize, type_: NoteOperationType },
}

/// The state of the editor.
#[derive(Clone, Debug)]
pub struct Model {
    /// Whether the host has been granted access to MIDI devices.
    pub midi_access: bool,
    /// Whether the host holds an output port to play on.
    pub has_output: bool,
    pub project: Project,
    pub selected_track_index: Option<usize>,
    pub mouse_operation: MouseOperation,
    /// Length given to the next note that a press places.
    pub last_placed_note_length: i32,
    /// Inverses of the commands done, the latest last.
    pub undo_stack: Vec<Action>,
    /// Inverses of the commands undone, the latest last.
    pub redo_stack: Vec<Action>,
    /// Where playback starts.
    pub play_offset: i32,
    /// How far playback has come since it started.
    pub play_progress: i32,
    /// Whether the host is running the playback timer.
    pub playing: bool,
}

/// The editor's state as contracts see it.
pub struct ModelView {
    pub midi_access: bool,
    pub has_output: bool,
    pub project: ProjectView,
    pub selected_track_index: Option<usize>,
    pub mouse_operation: MouseOperation,
    pub last_placed_note_length: i32,
    pub undo_stack: Seq<ActionView>,
    pub redo_stack: Seq<ActionView>,
    pub play_offset: i32,
    pub play_progress: i32,
    pub playing: bool,
}

impl View for Model {
    type V = ModelView;

    open spec fn view(&self) -> ModelView {
        ModelView {
            midi_access: self.midi_access,
            has_output: self.has_output,
            project: self.project@,
            selected_track_index: self.selected_track_index,
            mouse_operation: self.mouse_operation,
            last_placed_note_length: self.last_placed_note_length,
            undo_stack: self.undo_stack@.map_values(|a: Action| a@),
            redo_stack: self.redo_stack@.map_values(|a: Action| a@),
            play_offset: self.play_offset,
            play_progress: self.play_progress,
            playing: self.playing,
        }
    }
}

impl ModelView {
    /// The track list and the note list of every track are short enough to
    /// be held in a `Vec`.
    pub open spec fn fits(&self) -> bool {
        &&& self.project.tracks.len() <= usize::MAX
        &&& forall|i: int|
            0 <= i < self.project.tracks.len() ==> (#[trigger] self.project.tracks[i]).notes.len()
                <= usize::MAX
    }

    /// The selection, if there is one, names a track of the project.
    pub open spec fn selection_ok(&self) -> bool {
        self.selected_track_index matches Some(index) ==> index < self.project.tracks.len()
    }

    /// The editor as it starts: an untitled project in four-four time at 120
    /// beats per minute, without tracks, and nothing selected, pressed,
    /// recorded or playing.
    pub open spec fn initial() -> ModelView {
        ModelView {
            midi_access: false,
            has_output: false,
            project: ProjectView {
                name: "Untitled"@,
                time_signature: TimeSignature { top: 4, bottom: 4 },
                bpm: 120,
                tracks: Seq::empty(),
            },
            selected_track_index: None,
            mouse_operation: MouseOperation::Idle,
            last_placed_note_length: 1250,
            undo_stack: Seq::empty(),
            redo_stack: Seq::empty(),
            play_offset: 0,
            play_progress: 0,
            playing: false,
        }
    }
}

/// What a press on `note` at the horizontal position `x` starts: a drag of
/// the edge whose handle is under the pointer, the left one first, or else a
/// move of the note.
pub open spec fn grabbed(note: Note, x: int) -> NoteOperationType {
    if x <= note.spec_screen_x() + NOTE_EDGE_WIDTH {
        NoteOperationType::DragLeftEdge(note.offset, note.length)
    } else if x >= note.spec_right_edge() - NOTE_EDGE_WIDTH {
        NoteOperationType::DragRightEdge(note.length)
    } else {
        NoteOperationType::Move((pointer_time(x) - note.offset) as i64, note.offset, note.pitch)
    }
}

/// The note that a press at `(x, y)` places: at the grid time and the pitch
/// nearest to the pointer, with full velocity and the given length, or one
/// grid step if that is at or below the floor.
pub open spec fn placed_note(x: int, y: int, length: i32) -> Note {
    (Note {
        pitch: pointer_pitch(y) as u8,
        velocity: PLACED_VELOCITY,
        offset: pointer_time(x) as i32,
        length,
    }).floored()
}

/// A note placed right of the left border of the piano roll is well formed.
pub proof fn lemma_placed_note_wf(x: int, y: int, length: i32)
    requires
        0 <= x <= i32::MAX,
    ensures
        placed_note(x, y, length).wf(),
{
    crate::util::lemma_snap_nearest(x, crate::util::GRID_STEP_WIDTH as int, 0);
}

/// `note` as a drag of the kind `operation` leaves it when the pointer
/// stands at `(x, y)`, before the length floor is applied.
///
/// A move puts the note's start as far left of the pointer as it was
/// grabbed, and the note at the pitch nearest to the pointer. A drag of the
/// left
/// edge puts the start at the pointer, but no later than the end, and keeps
/// the end. A drag of the right edge puts the end at the pointer, but no
/// further left of the start than the note is long. Times are held within
/// what a note can store.
pub open spec fn dragged_raw(note: Note, operation: NoteOperationType, x: int, y: int) -> Note {
    let time = pointer_time(x);
    let pitch = pointer_pitch(y) as u8;
    match operation {
        NoteOperationType::Move(grab, _, _) => Note {
            offset: spec_clamp_time(time - grab) as i32,
            pitch,
            ..note
        },
        NoteOperationType::CreateAndMove => Note { offset: time as i32, pitch, ..note },
        NoteOperationType::DragLeftEdge(_, _) => {
            let start = if time <= note.spec_end() {
                time
            } else {
                note.spec_end()
            };
            Note {
                offset: spec_clamp_time(start) as i32,
                length: spec_clamp_time(note.spec_end() - start) as i32,
                ..note
            }
        },
        NoteOperationType::DragRightEdge(_) => {
            let stop = if time >= note.offset - note.length {
                time
            } else {
                note.offset - note.length
            };
            Note { length: spec_clamp_time(stop - note.offset) as i32, ..note }
        },
    }
}

/// `note` as a drag of the kind `operation` leaves it when the pointer
/// stands at `(x, y)`.
pub open spec fn dragged(note: Note, operation: NoteOperationType, x: int, y: int) -> Note {
    dragged_raw(note, operation, x, y).floored()
}

/// `note` as it was before a drag of the kind `operation` began.
pub open spec fn before_drag(note: Note, operation: NoteOperationType) -> Note {
    match operation {
        NoteOperationType::DragLeftEdge(offset, length) => Note { offset, length, ..note },
        NoteOperationType::DragRightEdge(length) => Note { length, ..note },
        NoteOperationType::Move(_, offset, pitch) => Note { offset, pitch, ..note },
        NoteOperationType::CreateAndMove => note,
    }
}

/// The pointer's shape at `(x, y)` over `notes`: that for the first note
/// under the pointer, which is the resize shape within the width of a handle
/// from either end of it.
pub open spec fn cursor_over(notes: Seq<Note>, x: int, y: int) -> Cursor {
    match first_note_at(notes, x, y) {
        None => Cursor::Auto,
        Some(index) => {
            let note = notes[index as int];
            if x <= note.spec_screen_x() + NOTE_EDGE_WIDTH || x >= note.spec_right_edge()
                - NOTE_EDGE_WIDTH {
                Cursor::Resize
            } else {
                Cursor::Move
            }
        },
    }
}

/// The name given to a new track when there are `count` tracks already.
pub open spec fn new_track_name(count: nat) -> Seq<char> {
    "Track "@ + decimal_digits(count + 1)
}

impl ModelView {
    /// The state with note `note_index` of track `track_index` replaced.
    pub open spec fn with_note(self, track_index: int, note_index: int, note: Note) -> ModelView {
        let track = self.project.tracks[track_index];
        ModelView {
            project: self.project.with_track(
                track_index,
                TrackView { notes: track.notes.update(note_index, note), ..track },
            ),
            ..self
        }
    }

    /// The state with the notes of track `track_index` replaced.
    pub open spec fn with_notes(self, track_index: int, notes: Seq<Note>) -> ModelView {
        let track = self.project.tracks[track_index];
        ModelView {
            project: self.project.with_track(track_index, TrackView { notes, ..track }),
            ..self
        }
    }

    /// The state and outcome of a press on the piano roll.
    ///
    /// A press does nothing while another is in progress or no track is
    /// selected. The primary button grabs the topmost note under the
    /// pointer, or places a note on the selected track and grabs that. The
    /// secondary button deletes the topmost note under the pointer.
    pub open spec fn pressed(self, input: MouseInput) -> (ModelView, OutcomeView) {
        if self.mouse_operation != MouseOperation::Idle {
            (self, quiet(false))
        } else {
            match self.selected_track_index {
                None => (self, quiet(false)),
                Some(track_index) => {
                    let notes = self.project.tracks[track_index as int].notes;
                    let hit = note_at(notes, input.x as int, input.y as int);
                    if input.buttons == PRIMARY_BUTTON {
                        match hit {
                            Some(note_index) => (
                                ModelView {
                                    mouse_operation: MouseOperation::NoteOperation {
                                        note_index,
                                        type_: grabbed(notes[note_index as int], input.x as int),
                                    },
                                    ..self
                                },
                                quiet(true),
                            ),
                            None => (
                                ModelView {
                                    mouse_operation: MouseOperation::NoteOperation {
                                        note_index: notes.len() as usize,
                                        type_: NoteOperationType::CreateAndMove,
                                    },
                                    ..self.with_notes(
                                        track_index as int,
                                        notes.push(
                                            placed_note(
                                                input.x as int,
                                                input.y as int,
                                                self.last_placed_note_length,
                                            ),
                                        ),
                                    )
                                },
                                quiet(true),
                            ),
                        }
                    } else if input.buttons == SECONDARY_BUTTON {
                        match hit {
                            Some(note_index) => (
                                self.performed(ActionView::DeleteNote(track_index, note_index)),
                                quiet(true),
                            ),
                            None => (self, quiet(false)),
                        }
                    } else {
                        (self, quiet(false))
                    }
                },
            }
        }
    }

    /// The state and outcome of a release over the piano roll.
    ///
    /// A release ends a drag by putting the note back as it was before the
    /// drag and then doing, as a command that can be undone, what the drag
    /// came to: an edit of the note, or the creation of the note that the
    /// press had placed. Without a selected track a release does nothing.
    pub open spec fn released(self) -> (ModelView, OutcomeView) {
        match self.selected_track_index {
            None => (self, quiet(false)),
            Some(track_index) => match self.mouse_operation {
                MouseOperation::NoteOperation { note_index, type_ } => {
                    let notes = self.project.tracks[track_index as int].notes;
                    let note = notes[note_index as int];
                    let next = if type_ == NoteOperationType::CreateAndMove {
                        self.with_notes(track_index as int, notes.remove(note_index as int)).performed(
                            ActionView::CreateNote(track_index, note),
                        )
                    } else {
                        self.with_note(
                            track_index as int,
                            note_index as int,
                            before_drag(note, type_),
                        ).performed(
                            ActionView::EditNote(
                                track_index,
                                note_index,
                                note.offset,
                                note.pitch,
                                note.length,
                            ),
                        )
                    };
                    (ModelView { mouse_operation: MouseOperation::Idle, ..next }, quiet(true))
                },
                _ => (ModelView { mouse_operation: MouseOperation::Idle, ..self }, quiet(false)),
            },
        }
    }

    /// The state and outcome of a pointer move.
    ///
    /// During a drag of the progress bar the start of playback follows the
    /// pointer. During a drag of a note the note follows the pointer, and
    /// its length becomes the length of the next note placed. Otherwise the
    /// secondary button deletes the topmost note under the pointer, and if
    /// nothing is deleted the pointer takes the shape for what it is over.
    pub open spec fn moved(self, input: MouseInput) -> (ModelView, OutcomeView) {
        match self.mouse_operation {
            MouseOperation::DragProgressBar => (
                ModelView {
                    play_offset: pointer_time(input.x - PIANO_KEYS_WIDTH) as i32,
                    ..self
                },
                quiet(true),
            ),
            MouseOperation::NoteOperation { note_index, type_ } => match self.selected_track_index {
                None => (self, quiet(false)),
                Some(track_index) => {
                    let note = self.project.tracks[track_index as int].notes[note_index as int];
                    let now = dragged(note, type_, input.x as int, input.y as int);
                    (
                        ModelView {
                            last_placed_note_length: now.length,
                            ..self.with_note(track_index as int, note_index as int, now)
                        },
                        quiet(true),
                    )
                },
            },
            MouseOperation::Idle => match self.selected_track_index {
                None => (self, quiet(false)),
                Some(track_index) => {
                    let notes = self.project.tracks[track_index as int].notes;
                    let hit = note_at(notes, input.x as int, input.y as int);
                    if input.buttons == SECONDARY_BUTTON && hit is Some {
                        (
                            self.performed(ActionView::DeleteNote(track_index, hit->0)),
                            quiet(true),
                        )
                    } else {
                        (
                            self,
                            with_effect(
                                false,
                                EffectView::SetCursor(
                                    cursor_over(notes, input.x as int, input.y as int),
                                ),
                            ),
                        )
                    }
                },
            },
        }
    }

    /// The state and outcome of a tick of the playback timer: playback moves
    /// on by one grid step, and once it has passed the end of the project it
    /// stops and goes back to its start.
    pub open spec fn ticked(self) -> (ModelView, OutcomeView) {
        let progress = spec_clamp_time(self.play_progress + MIN_INTERVAL);
        if self.play_offset + progress - END_TOLERANCE >= self.project.length() {
            (
                ModelView { play_progress: 0, playing: false, ..self },
                OutcomeView {
                    redraw: true,
                    effects: if self.playing {
                        seq![EffectView::CancelTimer]
                    } else {
                        Seq::empty()
                    },
                },
            )
        } else {
            (ModelView { play_progress: progress as i32, ..self }, quiet(true))
        }
    }

    /// The state and outcome of the play button. Without an output port it
    /// does nothing. Otherwise every pitch is silenced, and playback stops
    /// if it was on and starts if it was off.
    pub open spec fn toggled(self) -> (ModelView, OutcomeView) {
        if !self.has_output {
            (self, quiet(false))
        } else if self.playing {
            (
                ModelView { playing: false, ..self },
                OutcomeView {
                    redraw: false,
                    effects: seq![
                        EffectView::Play(spec_all_notes_off()),
                        EffectView::CancelTimer,
                        EffectView::Send(MsgView::SetPlayProgress(0)),
                    ],
                },
            )
        } else {
            (
                ModelView { playing: true, ..self },
                OutcomeView {
                    redraw: false,
                    effects: seq![
                        EffectView::Play(spec_all_notes_off()),
                        EffectView::StartTimer {
                            period: spec_tick_interval(self.project.bpm),
                            offset: self.play_offset,
                        },
                    ],
                },
            )
        }
    }

    /// The state and outcome of deleting the selected track: the selection
    /// moves to the track before it, or to the first, or goes if no track is
    /// left.
    pub open spec fn selected_deleted(self) -> (ModelView, OutcomeView) {
        match self.selected_track_index {
            None => (self, quiet(false)),
            Some(index) => {
                let next = self.performed(ActionView::DeleteTrack(index));
                (
                    next,
                    with_effect(
                        true,
                        EffectView::Send(
                            if next.project.tracks.len() >= 1 {
                                MsgView::SelectTrack(
                                    if index == 0 {
                                        0
                                    } else {
                                        (index - 1) as usize
                                    },
                                )
                            } else {
                                MsgView::DeselectTrack
                            },
                        ),
                    ),
                )
            },
        }
    }

    /// The state after `action` has been done to the selected track, whose
    /// index the command is made with; the same state if none is selected.
    pub open spec fn on_selected(self, action: spec_fn(usize) -> ActionView) -> ModelView {
        match self.selected_track_index {
            None => self,
            Some(index) => self.performed(action(index)),
        }
    }

    /// Whether the editor can take the message in this state: every track
    /// and note that the message makes it look up exists, there is an output
    /// port for what it would play, and the project is small enough for what
    /// it would export.
    pub open spec fn accepts(self, msg: MsgView) -> bool {
        let tracks = self.project.tracks;
        let selection_exists = self.selection_ok();
        let drag_exists = self.mouse_operation matches MouseOperation::NoteOperation {
            note_index,
            ..
        } ==> self.selected_track_index matches Some(track_index) ==> track_index < tracks.len()
            && note_index < tracks[track_index as int].notes.len();
        match msg {
            MsgView::DeleteSelectedTrack => selection_exists,
            MsgView::RenameSelectedTrack(_) => selection_exists,
            MsgView::SetSelectedTrackInstrument(_) => selection_exists,
            MsgView::PianoRollMouseDown(_) => self.mouse_operation == MouseOperation::Idle
                ==> selection_exists,
            MsgView::PianoRollMouseUp => drag_exists,
            MsgView::MouseMove(_) => drag_exists && (self.mouse_operation == MouseOperation::Idle
                ==> selection_exists),
            MsgView::PlayMidiNote(_, _) => self.has_output,
            MsgView::ExportMidi => self.project.note_count() <= MAX_EXPORT_NOTES,
            MsgView::Undo => self.can_undo(),
            MsgView::Redo => self.can_redo(),
            _ => true,
        }
    }

    /// The state that the message leaves and what its update hands back.
    pub open spec fn step(self, msg: MsgView) -> (ModelView, OutcomeView) {
        match msg {
            MsgView::MidiAccessGranted(has_output) => (
                ModelView { midi_access: true, has_output, ..self },
                with_effect(true, EffectView::Send(MsgView::CreateTrack)),
            ),
            MsgView::MidiAccessRefused => (
                ModelView { midi_access: false, has_output: false, ..self },
                quiet(true),
            ),
            MsgView::SetOutputDevice => (
                ModelView { has_output: true, ..self },
                with_effect(
                    true,
                    EffectView::Play(spec_play_midi_note(0, 60, PREVIEW_DURATION)),
                ),
            ),
            MsgView::SelectTrack(index) => (
                ModelView {
                    selected_track_index: if index < self.project.tracks.len() {
                        Some(index)
                    } else {
                        None
                    },
                    ..self
                },
                quiet(true),
            ),
            MsgView::DeselectTrack => (
                ModelView { selected_track_index: None, ..self },
                quiet(true),
            ),
            MsgView::CreateTrack => (
                self.performed(
                    ActionView::CreateTrack(
                        TrackView {
                            name: new_track_name(self.project.tracks.len()),
                            notes: Seq::empty(),
                            instrument: 0,
                        },
                    ),
                ),
                quiet(true),
            ),
            MsgView::DeleteSelectedTrack => self.selected_deleted(),
            MsgView::RenameSelectedTrack(name) => (
                self.on_selected(|index: usize| ActionView::RenameTrack(index, name)),
                quiet(true),
            ),
            MsgView::SetSelectedTrackInstrument(instrument) => (
                self.on_selected(|index: usize| ActionView::SetTrackInstrument(index, instrument)),
                quiet(true),
            ),
            MsgView::SetProjectName(name) => (
                self.performed(ActionView::RenameProject(name)),
                quiet(true),
            ),
            MsgView::SetBpm(bpm) => (self.performed(ActionView::SetBpm(bpm)), quiet(true)),
            MsgView::SetTimeSignatureTop(top) => (
                self.performed(ActionView::SetTimeSignatureTop(top)),
                quiet(true),
            ),
            MsgView::SetTimeSignatureBottom(bottom) => (
                self.performed(ActionView::SetTimeSignatureBottom(bottom)),
                quiet(true),
            ),
            MsgView::ProgressBarMouseDown(input) => if self.mouse_operation
                == MouseOperation::Idle {
                (
                    ModelView {
                        mouse_operation: MouseOperation::DragProgressBar,
                        play_offset: pointer_time(input.x - PIANO_KEYS_WIDTH) as i32,
                        ..self
                    },
                    quiet(true),
                )
            } else {
                (self, quiet(false))
            },
            MsgView::ProgressBarMouseUp => (
                ModelView { mouse_operation: MouseOperation::Idle, ..self },
                quiet(false),
            ),
            MsgView::PianoRollMouseDown(input) => self.pressed(input),
            MsgView::PianoRollMouseUp => self.released(),
            MsgView::MouseMove(input) => self.moved(input),
            MsgView::TogglePlayback => self.toggled(),
            MsgView::SetPlayProgress(progress) => (
                ModelView { play_progress: progress, ..self },
                quiet(true),
            ),
            MsgView::IncrementPlayProgress => self.ticked(),
            MsgView::PlayMidiNote(instrument, pitch) => (
                self,
                with_effect(
                    false,
                    EffectView::Play(spec_play_midi_note(instrument, pitch, PREVIEW_DURATION)),
                ),
            ),
            MsgView::ExportMidi => (
                self,
                with_effect(
                    false,
                    EffectView::Download {
                        file_name: self.project.name + ".mid"@,
                        data: midi_file(self.project),
                    },
                ),
            ),
            MsgView::Undo => (self.undone(), quiet(true)),
            MsgView::Redo => (self.redone(), quiet(true)),
        }
    }
}

impl Model {
    /// The view of an editor state always fits.
    pub proof fn lemma_fits(&self)
        ensures
            self@.fits(),
    {
        assert(self@.project.tracks.len() == self.project.tracks.len());
        assert forall|i: int| 0 <= i < self@.project.tracks.len() implies (
        #[trigger] self@.project.tracks[i]).notes.len() <= usize::MAX by {
            assert(self@.project.tracks[i].notes.len() == self.project.tracks@[i].notes.len());
        }
    }

    /// Whether the selection, if there is one, names a track of the project.
    pub fn selection_ok(&self) -> (r: bool)
        ensures
            r == self@.selection_ok(),
    {
        assert(self@.project.tracks.len() == self.project.tracks.len());
        match self.selected_track_index {
            None => true,
            Some(index) => index < self.project.tracks.len(),
        }
    }

    /// The editor as it starts.
    pub fn new() -> (r: Model)
        ensures
            r@ == ModelView::initial(),
    {
        let model = Model {
            midi_access: false,
            has_output: false,
            project: Project {
                name: "Untitled".to_owned(),
                time_signature: TimeSignature { top: 4, bottom: 4 },
                bpm: 120,
                tracks: Vec::new(),
            },
            selected_track_index: None,
            mouse_operation: MouseOperation::Idle,
            last_placed_note_length: 1250,
            undo_stack: Vec::new(),
            redo_stack: Vec::new(),
            play_offset: 0,
            play_progress: 0,
            playing: false,
        };
        assert(model@.project.tracks =~= Seq::empty());
        assert(model@.undo_stack =~= Seq::empty());
        assert(model@.redo_stack =~= Seq::empty());
        model
    }
}

impl Outcome {
    /// An outcome without effects.
    pub fn quiet(redraw: bool) -> (r: Outcome)
        ensures
            r@ == quiet(redraw),
    {
        let r = Outcome { redraw, effects: Vec::new() };
        assert(r@.effects =~= Seq::empty());
        r
    }

    /// An outcome with one effect.
    pub fn with_effect(redraw: bool, effect: Effect) -> (r: Outcome)
        ensures
            r@ == with_effect(redraw, effect@),
    {
        let mut effects: Vec<Effect> = Vec::new();
        effects.push(effect);
        let r = Outcome { redraw, effects };
        assert(r@.effects =~= seq![effect@]);
        r
    }
}

/// What a press on `note` at the horizontal position `x` starts.
pub fn grab(note: &Note, x: i32) -> (r: NoteOperationType)
    ensures
        r == grabbed(*note, x as int),
{
    let px: i64 = x as i64;
    if px <= note.screen_x() + NOTE_EDGE_WIDTH {
        NoteOperationType::DragLeftEdge(note.offset, note.length)
    } else if px >= note.right_edge() - NOTE_EDGE_WIDTH {
        NoteOperationType::DragRightEdge(note.length)
    } else {
        let grab_offset: i64 = mouse_x_to_interval(x) as i64 - note.offset as i64;
        NoteOperationType::Move(grab_offset, note.offset, note.pitch)
    }
}

/// `note` as a drag of the kind `operation` leaves it when the pointer
/// stands at `(x, y)`. The note comes out longer than `LENGTH_FLOOR`: a drag
/// that would leave it shorter gives it the length of one grid step.
pub fn drag(note: &Note, operation: NoteOperationType, x: i32, y: i32) -> (r: Note)
    ensures
        r == dragged(*note, operation, x as int, y as int),
        r.length > LENGTH_FLOOR,
        dragged_raw(*note, operation, x as int, y as int).length <= LENGTH_FLOOR ==> r.length
            == MIN_INTERVAL,
        r.velocity == note.velocity,
        note.pitch <= 127 ==> r.pitch <= 127,
{
    let time: i64 = mouse_x_to_interval(x) as i64;
    let pitch: u8 = mouse_y_to_pitch(y);
    let mut now: Note = *note;
    match operation {
        NoteOperationType::Move(grab_offset, _, _) => {
            now.offset = clamp_time(time as i128 - grab_offset as i128);
            now.pitch = pitch;
        },
        NoteOperationType::CreateAndMove => {
            now.offset = time as i32;
            now.pitch = pitch;
        },
        NoteOperationType::DragLeftEdge(_, _) => {
            let end: i64 = note.end();
            let start: i64 = if time <= end {
                time
            } else {
                end
            };
            now.length = clamp_time((end - start) as i128);
            now.offset = clamp_time(start as i128);
        },
        NoteOperationType::DragRightEdge(_) => {
            let least: i64 = note.offset as i64 - note.length as i64;
            let stop: i64 = if time >= least {
                time
            } else {
                least
            };
            now.length = clamp_time((stop - note.offset as i64) as i128);
        },
    }
    if now.length <= LENGTH_FLOOR {
        now.length = MIN_INTERVAL;
    }
    now
}

/// The pointer's shape at `(x, y)` over the notes of `track`.
pub fn cursor_at(track: &Track, x: i32, y: i32) -> (r: Cursor)
    ensures
        r == cursor_over(track.notes@, x as int, y as int),
{
    match track.first_note_at_position(x, y) {
        None => Cursor::Auto,
        Some(index) => {
            proof {
                assert(track.notes@.len() == track.notes.len());
                crate::project::lemma_first_note_at(track.notes@, x as int, y as int);
            }
            let note = &track.notes[index];
            let px: i64 = x as i64;
            if px <= note.screen_x() + NOTE_EDGE_WIDTH || px >= note.right_edge()
                - NOTE_EDGE_WIDTH {
                Cursor::Resize
            } else {
                Cursor::Move
            }
        },
    }
}

impl Model {
    /// Puts the start of playback at the grid time under the horizontal
    /// position `mouse_x` of the progress bar, which begins right of the
    /// keyboard.
    pub fn set_play_offset_from_mouse_x(&mut self, mouse_x: i32)
        ensures
            final(self)@ == (ModelView {
                play_offset: pointer_time(mouse_x - PIANO_KEYS_WIDTH) as i32,
                ..old(self)@
            }),
    {
        self.play_offset = grid_time(mouse_x as i64 - PIANO_KEYS_WIDTH);
    }

    /// Replaces the note at `note_index` of the track at `track_index`.
    fn set_note(&mut self, track_index: usize, note_index: usize, note: Note)
        requires
            track_index < old(self)@.project.tracks.len(),
            note_index < old(self)@.project.tracks[track_index as int].notes.len(),
        ensures
            final(self)@ == old(self)@.with_note(track_index as int, note_index as int, note),
    {
        self.project.tracks[track_index].notes[note_index] = note;
        assert(self@.project.tracks =~= old(self)@.with_note(
            track_index as int,
            note_index as int,
            note,
        ).project.tracks);
    }

    /// Handles a press on the piano roll.
    fn press(&mut self, input: MouseInput) -> (outcome: Outcome)
        requires
            old(self)@.accepts(MsgView::PianoRollMouseDown(input)),
        ensures
            final(self)@ == old(self)@.pressed(input).0,
            outcome@ == old(self)@.pressed(input).1,
    {
        match self.mouse_operation {
            MouseOperation::Idle => {},
            _ => {
                return Outcome::quiet(false);
            },
        }
        let track_index: usize = match self.selected_track_index {
            None => {
                return Outcome::quiet(false);
            },
            Some(index) => index,
        };
        let hit = self.project.tracks[track_index].get_note_at_position(input.x, input.y);
        if input.buttons == PRIMARY_BUTTON {
            match hit {
                Some(note_index) => {
                    let type_ = grab(&self.project.tracks[track_index].notes[note_index], input.x);
                    self.mouse_operation = MouseOperation::NoteOperation { note_index, type_ };
                },
                None => {
                    let note_index: usize = self.project.tracks[track_index].notes.len();
                    let note = Note {
                        pitch: mouse_y_to_pitch(input.y),
                        velocity: PLACED_VELOCITY,
                        offset: mouse_x_to_interval(input.x),
                        length: if self.last_placed_note_length <= LENGTH_FLOOR {
                            MIN_INTERVAL
                        } else {
                            self.last_placed_note_length
                        },
                    };
                    self.project.tracks[track_index].notes.push(note);
                    self.mouse_operation = MouseOperation::NoteOperation {
                        note_index,
                        type_: NoteOperationType::CreateAndMove,
                    };
                    assert(self@.project.tracks =~= old(self)@.pressed(input).0.project.tracks);
                },
            }
            Outcome::quiet(true)
        } else if input.buttons == SECONDARY_BUTTON {
            match hit {
                Some(note_index) => {
                    self.perform_action(Action::DeleteNote(track_index, note_index));
                    Outcome::quiet(true)
                },
                None => Outcome::quiet(false),
            }
        } else {
            Outcome::quiet(false)
        }
    }

    /// Handles a release over the piano roll.
    fn release(&mut self) -> (outcome: Outcome)
        requires
            old(self)@.accepts(MsgView::PianoRollMouseUp),
        ensures
            final(self)@ == old(self)@.released().0,
            outcome@ == old(self)@.released().1,
    {
        let track_index: usize = match self.selected_track_index {
            None => {
                return Outcome::quiet(false);
            },
            Some(index) => index,
        };
        let result = match self.mouse_operation {
            MouseOperation::NoteOperation { note_index, type_ } => {
                let note: Note = self.project.tracks[track_index].notes[note_index];
                match type_ {
                    NoteOperationType::CreateAndMove => {
                        let ghost count = self.project.tracks[track_index as int].notes.len();
                        let placed = self.project.tracks[track_index].notes.remove(note_index);
                        assert(self@.project.tracks[track_index as int].notes.len() == count - 1);
                        assert(self@.project.tracks =~= old(self)@.with_notes(
                            track_index as int,
                            old(self)@.project.tracks[track_index as int].notes.remove(
                                note_index as int,
                            ),
                        ).project.tracks);
                        self.perform_action(Action::CreateNote(track_index, placed));
                    },
                    _ => {
                        let mut before: Note = note;
                        match type_ {
                            NoteOperationType::DragLeftEdge(offset, length) => {
                                before.offset = offset;
                                before.length = length;
                            },
                            NoteOperationType::DragRightEdge(length) => {
                                before.length = length;
                            },
                            NoteOperationType::Move(_, offset, pitch) => {
                                before.offset = offset;
                                before.pitch = pitch;
                            },
                            NoteOperationType::CreateAndMove => {},
                        }
                        self.set_note(track_index, note_index, before);
                        self.perform_action(
                            Action::EditNote(
                                track_index,
                                note_index,
                                note.offset,
                                note.pitch,
                                note.length,
                            ),
                        );
                    },
                }
                true
            },
            _ => false,
        };
        self.mouse_operation = MouseOperation::Idle;
        Outcome::quiet(result)
    }

    /// Handles a pointer move.
    fn pointer_moved(&mut self, input: MouseInput) -> (outcome: Outcome)
        requires
            old(self)@.accepts(MsgView::MouseMove(input)),
        ensures
            final(self)@ == old(self)@.moved(input).0,
            outcome@ == old(self)@.moved(input).1,
    {
        match self.mouse_operation {
            MouseOperation::DragProgressBar => {
                self.set_play_offset_from_mouse_x(input.x);
                Outcome::quiet(true)
            },
            MouseOperation::NoteOperation { note_index, type_ } => {
                let track_index: usize = match self.selected_track_index {
                    None => {
                        return Outcome::quiet(false);
                    },
                    Some(index) => index,
                };
                let now = drag(
                    &self.project.tracks[track_index].notes[note_index],
                    type_,
                    input.x,
                    input.y,
                );
                self.set_note(track_index, note_index, now);
                self.last_placed_note_length = now.length;
                Outcome::quiet(true)
            },
            MouseOperation::Idle => {
                let track_index: usize = match self.selected_track_index {
                    None => {
                        return Outcome::quiet(false);
                    },
                    Some(index) => index,
                };
                if input.buttons == SECONDARY_BUTTON {
                    let hit = self.project.tracks[track_index].get_note_at_position(
                        input.x,
                        input.y,
                    );
                    if let Some(note_index) = hit {
                        self.perform_action(Action::DeleteNote(track_index, note_index));
                        return Outcome::quiet(true);
                    }
                }
                let cursor = cursor_at(&self.project.tracks[track_index], input.x, input.y);
                Outcome::with_effect(false, Effect::SetCursor(cursor))
            },
        }
    }

    /// Handles a tick of the playback timer.
    fn tick(&mut self) -> (outcome: Outcome)
        ensures
            final(self)@ == old(self)@.ticked().0,
            outcome@ == old(self)@.ticked().1,
    {
        let progress: i32 = clamp_time(self.play_progress as i128 + MIN_INTERVAL as i128);
        if self.play_offset as i64 + progress as i64 - END_TOLERANCE >= self.project.length() {
            let was_playing: bool = self.playing;
            self.playing = false;
            self.play_progress = 0;
            if was_playing {
                Outcome::with_effect(true, Effect::CancelTimer)
            } else {
                Outcome::quiet(true)
            }
        } else {
            self.play_progress = progress;
            Outcome::quiet(true)
        }
    }

    /// Deletes the selected track, if there is one, and asks for the
    /// selection to move on.
    fn delete_selected(&mut self) -> (outcome: Outcome)
        requires
            old(self)@.accepts(MsgView::DeleteSelectedTrack),
        ensures
            final(self)@ == old(self)@.selected_deleted().0,
            outcome@ == old(self)@.selected_deleted().1,
    {
        match self.selected_track_index {
            None => Outcome::quiet(false),
            Some(index) => {
                self.perform_action(Action::DeleteTrack(index));
                assert(self@.project.tracks.len() == self.project.tracks.len());
                if self.project.tracks.len() >= 1 {
                    let index: usize = if index == 0 {
                        0
                    } else {
                        index - 1
                    };
                    Outcome::with_effect(true, Effect::Send(Msg::SelectTrack(index)))
                } else {
                    Outcome::with_effect(true, Effect::Send(Msg::DeselectTrack))
                }
            },
        }
    }

    /// Whether the editor can take the message in the state it is in.
    pub fn accepts(&self, msg: &Msg) -> (r: bool)
        ensures
            r == self@.accepts(msg@),
    {
        let count: usize = self.project.tracks.len();
        assert(self@.project.tracks.len() == count);
        let selection_exists: bool = self.selection_ok();
        let drag_exists: bool = match self.mouse_operation {
            MouseOperation::NoteOperation { note_index, .. } => match self.selected_track_index {
                None => true,
                Some(track_index) => track_index < count && note_index
                    < self.project.tracks[track_index].notes.len(),
            },
            _ => true,
        };
        let idle: bool = match self.mouse_operation {
            MouseOperation::Idle => true,
            _ => false,
        };
        match msg {
            Msg::DeleteSelectedTrack => selection_exists,
            Msg::RenameSelectedTrack(_) => selection_exists,
            Msg::SetSelectedTrackInstrument(_) => selection_exists,
            Msg::PianoRollMouseDown(_) => !idle || selection_exists,
            Msg::PianoRollMouseUp => drag_exists,
            Msg::MouseMove(_) => drag_exists && (!idle || selection_exists),
            Msg::PlayMidiNote(_, _) => self.has_output,
            Msg::ExportMidi => self.project.note_count() <= MAX_EXPORT_NOTES,
            Msg::Undo => self.can_undo(),
            Msg::Redo => self.can_redo(),
            _ => true,
        }
    }

    /// Takes a message from the host: changes the state as the message asks
    /// and hands back whether to draw again and what else the host is to do.
    ///
    /// The message must be one that the editor can take in its state, which
    /// `accepts` tells. No message brings a note length to the floor, and no
    /// message leaves the selection naming a track that is not there:
    /// selecting such a track selects nothing.
    pub fn update(&mut self, msg: Msg) -> (outcome: Outcome)
        requires
            old(self)@.accepts(msg@),
        ensures
            final(self)@ == old(self)@.step(msg@).0,
            outcome@ == old(self)@.step(msg@).1,
            old(self)@.keeps_floor() ==> final(self)@.keeps_floor(),
            old(self)@.selection_ok() ==> final(self)@.selection_ok(),
    {
        proof {
            self.lemma_fits();
            if self@.keeps_floor() {
                lemma_step_keeps_floor(self@, msg@);
            }
            if self@.selection_ok() {
                lemma_step_keeps_selection(self@, msg@);
            }
        }
        match msg {
            Msg::MidiAccessGranted(has_output) => {
                self.midi_access = true;
                self.has_output = has_output;
                Outcome::with_effect(true, Effect::Send(Msg::CreateTrack))
            },
            Msg::MidiAccessRefused => {
                self.midi_access = false;
                self.has_output = false;
                Outcome::quiet(true)
            },
            Msg::SetOutputDevice => {
                self.has_output = true;
                let messages = self.play_midi_note(0, 60, PREVIEW_DURATION);
                Outcome::with_effect(true, Effect::Play(messages))
            },
            Msg::SelectTrack(index) => {
                assert(self@.project.tracks.len() == self.project.tracks.len());
                self.selected_track_index = if index < self.project.tracks.len() {
                    Some(index)
                } else {
                    None
                };
                Outcome::quiet(true)
            },
            Msg::DeselectTrack => {
                self.selected_track_index = None;
                Outcome::quiet(true)
            },
            Msg::CreateTrack => {
                let len: usize = self.project.tracks.len();
                assert(self@.project.tracks.len() == len);
                let mut name = String::from_str("Track ");
                name.append(decimal(len as u128 + 1).as_str());
                let track = Track { name, notes: Vec::new(), instrument: 0 };
                assert(track@.notes =~= Seq::empty());
                self.perform_action(Action::CreateTrack(track));
                Outcome::quiet(true)
            },
            Msg::DeleteSelectedTrack => self.delete_selected(),
            Msg::RenameSelectedTrack(name) => {
                if let Some(index) = self.selected_track_index {
                    self.perform_action(Action::RenameTrack(index, name));
                }
                Outcome::quiet(true)
            },
            Msg::SetSelectedTrackInstrument(instrument) => {
                if let Some(index) = self.selected_track_index {
                    self.perform_action(Action::SetTrackInstrument(index, instrument));
                }
                Outcome::quiet(true)
            },
            Msg::SetProjectName(name) => {
                self.perform_action(Action::RenameProject(name));
                Outcome::quiet(true)
            },
            Msg::SetBpm(bpm) => {
                self.perform_action(Action::SetBpm(bpm));
                Outcome::quiet(true)
            },
            Msg::SetTimeSignatureTop(top) => {
                self.perform_action(Action::SetTimeSignatureTop(top));
                Outcome::quiet(true)
            },
            Msg::SetTimeSignatureBottom(bottom) => {
                self.perform_action(Action::SetTimeSignatureBottom(bottom));
                Outcome::quiet(true)
            },
            Msg::ProgressBarMouseDown(input) => {
                if let MouseOperation::Idle = self.mouse_operation {
                    self.mouse_operation = MouseOperation::DragProgressBar;
                    self.set_play_offset_from_mouse_x(input.x);
                    return Outcome::quiet(true);
                }
                Outcome::quiet(false)
            },
            Msg::ProgressBarMouseUp => {
                self.mouse_operation = MouseOperation::Idle;
                Outcome::quiet(false)
            },
            Msg::PianoRollMouseDown(input) => self.press(input),
            Msg::PianoRollMouseUp => self.release(),
            Msg::MouseMove(input) => self.pointer_moved(input),
            Msg::TogglePlayback => self.play(),
            Msg::SetPlayProgress(progress) => {
                self.play_progress = progress;
                Outcome::quiet(true)
            },
            Msg::IncrementPlayProgress => self.tick(),
            Msg::PlayMidiNote(instrument, pitch) => {
                let messages = self.play_midi_note(instrument, pitch, PREVIEW_DURATION);
                Outcome::with_effect(false, Effect::Play(messages))
            },
            Msg::ExportMidi => {
                let mut file_name = self.project.name.clone();
                file_name.append(".mid");
                let data = export_midi(&self.project);
                Outcome::with_effect(false, Effect::Download { file_name, data })
            },
            Msg::Undo => {
                self.undo_last();
                Outcome::quiet(true)
            },
            Msg::Redo => {
                self.redo_last();
                Outcome::quiet(true)
            },
        }
    }
}

impl TrackView {
    /// Every note of the track is longer than the floor.
    pub open spec fn keeps_floor(self) -> bool {
        forall|i: int| 0 <= i < self.notes.len() ==> (#[trigger] self.notes[i]).length > LENGTH_FLOOR
    }
}

impl ActionView {
    /// Every note that the command adds is longer than the floor. A command
    /// that edits a note keeps the floor by itself.
    pub open spec fn keeps_floor(self) -> bool {
        match self {
            ActionView::CreateTrack(track) => track.keeps_floor(),
            ActionView::CreateNote(_, note) => note.length > LENGTH_FLOOR,
            _ => true,
        }
    }
}

impl ModelView {
    /// No note length is at or below the floor: not that of a note of the
    /// project, and not that of a note that a recorded command brings back.
    pub open spec fn keeps_floor(self) -> bool {
        &&& forall|i: int|
            0 <= i < self.project.tracks.len() ==> (#[trigger] self.project.tracks[i]).keeps_floor()
        &&& forall|i: int|
            0 <= i < self.undo_stack.len() ==> (#[trigger] self.undo_stack[i]).keeps_floor()
        &&& forall|i: int|
            0 <= i < self.redo_stack.len() ==> (#[trigger] self.redo_stack[i]).keeps_floor()
    }
}

/// A command that brings no length at or below the floor leaves none in the
/// project, and neither does the command that undoes it.
pub proof fn lemma_command_keeps_floor(state: ModelView, action: ActionView)
    requires
        state.keeps_floor(),
        state.admits(action),
        action.keeps_floor(),
    ensures
        state.after(action).keeps_floor(),
        state.inverse_of(action).keeps_floor(),
        state.performed(action).keeps_floor(),
{
    let tracks = state.project.tracks;
    let next = state.after(action);
    assert forall|i: int| 0 <= i < next.project.tracks.len() implies (
    #[trigger] next.project.tracks[i]).keeps_floor() by {
        match action {
            ActionView::CreateTrack(track) => {
                if i < tracks.len() {
                    assert(tracks[i].keeps_floor());
                }
            },
            ActionView::DeleteTrack(index) => {
                if i < index {
                    assert(tracks[i].keeps_floor());
                } else {
                    assert(tracks[i + 1].keeps_floor());
                }
            },
            ActionView::RenameTrack(index, _) => {
                assert(tracks[i].keeps_floor());
            },
            ActionView::SetTrackInstrument(index, _) => {
                assert(tracks[i].keeps_floor());
            },
            ActionView::CreateNote(index, note) => {
                assert(tracks[i].keeps_floor());
            },
            ActionView::DeleteNote(index, note) => {
                assert(tracks[i].keeps_floor());
                if i == index {
                    let notes = tracks[i].notes;
                    assert forall|k: int| 0 <= k < notes.remove(note as int).len() implies (
                    #[trigger] notes.remove(note as int)[k]).length > LENGTH_FLOOR by {
                        if k < note {
                            assert(notes[k].length > LENGTH_FLOOR);
                        } else {
                            assert(notes[k + 1].length > LENGTH_FLOOR);
                        }
                    }
                }
            },
            ActionView::EditNote(index, note, _, _, _) => {
                assert(tracks[i].keeps_floor());
            },
            _ => {
                assert(tracks[i].keeps_floor());
            },
        }
    }
    match action {
        ActionView::DeleteTrack(index) => {
            assert(tracks[index as int].keeps_floor());
        },
        ActionView::DeleteNote(index, note) => {
            assert(tracks[index as int].keeps_floor());
        },
        ActionView::EditNote(index, note, _, _, _) => {
            assert(tracks[index as int].keeps_floor());
        },
        _ => {},
    }
}

/// Whatever message the editor takes, no note length comes to lie at or
/// below the floor: a state that fits and keeps the floor is followed by one
/// that keeps it.
pub proof fn lemma_step_keeps_floor(state: ModelView, msg: MsgView)
    requires
        state.fits(),
        state.keeps_floor(),
        state.accepts(msg),
    ensures
        state.step(msg).0.keeps_floor(),
{
    let tracks = state.project.tracks;
    let next = state.step(msg).0;
    match msg {
        MsgView::CreateTrack => {
            lemma_command_keeps_floor(
                state,
                ActionView::CreateTrack(
                    TrackView {
                        name: new_track_name(tracks.len()),
                        notes: Seq::empty(),
                        instrument: 0,
                    },
                ),
            );
        },
        MsgView::DeleteSelectedTrack => {
            if let Some(index) = state.selected_track_index {
                lemma_command_keeps_floor(state, ActionView::DeleteTrack(index));
            }
        },
        MsgView::RenameSelectedTrack(name) => {
            if let Some(index) = state.selected_track_index {
                lemma_command_keeps_floor(state, ActionView::RenameTrack(index, name));
            }
        },
        MsgView::SetSelectedTrackInstrument(instrument) => {
            if let Some(index) = state.selected_track_index {
                lemma_command_keeps_floor(
                    state,
                    ActionView::SetTrackInstrument(index, instrument),
                );
            }
        },
        MsgView::SetProjectName(name) => {
            lemma_command_keeps_floor(state, ActionView::RenameProject(name));
        },
        MsgView::SetBpm(bpm) => {
            lemma_command_keeps_floor(state, ActionView::SetBpm(bpm));
        },
        MsgView::SetTimeSignatureTop(top) => {
            lemma_command_keeps_floor(state, ActionView::SetTimeSignatureTop(top));
        },
        MsgView::SetTimeSignatureBottom(bottom) => {
            lemma_command_keeps_floor(state, ActionView::SetTimeSignatureBottom(bottom));
        },
        MsgView::PianoRollMouseDown(input) => {
            lemma_press_keeps_floor(state, input);
        },
        MsgView::PianoRollMouseUp => {
            lemma_release_keeps_floor(state);
        },
        MsgView::MouseMove(input) => {
            lemma_move_keeps_floor(state, input);
        },
        MsgView::Undo => {
            if state.undo_stack.len() > 0 {
                let action = state.undo_stack.last();
                let rest = ModelView { undo_stack: state.undo_stack.drop_last(), ..state };
                assert(action.keeps_floor());
                lemma_command_keeps_floor(state, action);
                assert forall|i: int| 0 <= i < next.undo_stack.len() implies (
                #[trigger] next.undo_stack[i]).keeps_floor() by {
                    assert(state.undo_stack[i].keeps_floor());
                }
                assert forall|i: int| 0 <= i < next.redo_stack.len() implies (
                #[trigger] next.redo_stack[i]).keeps_floor() by {
                    if i < state.redo_stack.len() {
                        assert(state.redo_stack[i].keeps_floor());
                    }
                }
            }
        },
        MsgView::Redo => {
            if state.redo_stack.len() > 0 {
                let action = state.redo_stack.last();
                assert(action.keeps_floor());
                lemma_command_keeps_floor(state, action);
                assert forall|i: int| 0 <= i < next.redo_stack.len() implies (
                #[trigger] next.redo_stack[i]).keeps_floor() by {
                    assert(state.redo_stack[i].keeps_floor());
                }
                assert forall|i: int| 0 <= i < next.undo_stack.len() implies (
                #[trigger] next.undo_stack[i]).keeps_floor() by {
                    if i < state.undo_stack.len() {
                        assert(state.undo_stack[i].keeps_floor());
                    }
                }
            }
        },
        _ => {},
    }
}

/// A press leaves no note length at or below the floor.
proof fn lemma_press_keeps_floor(state: ModelView, input: MouseInput)
    requires
        state.fits(),
        state.keeps_floor(),
        state.accepts(MsgView::PianoRollMouseDown(input)),
    ensures
        state.pressed(input).0.keeps_floor(),
{
    let next = state.pressed(input).0;
    if state.mouse_operation == MouseOperation::Idle {
        if let Some(track_index) = state.selected_track_index {
            let tracks = state.project.tracks;
            let notes = tracks[track_index as int].notes;
            let hit = note_at(notes, input.x as int, input.y as int);
            assert(tracks[track_index as int].keeps_floor());
            if input.buttons == PRIMARY_BUTTON {
                match hit {
                    Some(note_index) => {
                        crate::project::lemma_note_at(notes, input.x as int, input.y as int);
                        assert(notes[note_index as int].length > LENGTH_FLOOR);
                    },
                    None => {
                        assert forall|i: int| 0 <= i < next.project.tracks.len() implies (
                        #[trigger] next.project.tracks[i]).keeps_floor() by {
                            assert(tracks[i].keeps_floor());
                        }
                    },
                }
            } else if input.buttons == SECONDARY_BUTTON {
                if let Some(note_index) = hit {
                    crate::project::lemma_note_at(notes, input.x as int, input.y as int);
                    lemma_command_keeps_floor(
                        state,
                        ActionView::DeleteNote(track_index, note_index),
                    );
                }
            }
        }
    }
}

/// A release leaves no note length at or below the floor.
proof fn lemma_release_keeps_floor(state: ModelView)
    requires
        state.fits(),
        state.keeps_floor(),
        state.accepts(MsgView::PianoRollMouseUp),
    ensures
        state.released().0.keeps_floor(),
{
    if let Some(track_index) = state.selected_track_index {
        if let MouseOperation::NoteOperation { note_index, type_ } = state.mouse_operation {
            let tracks = state.project.tracks;
            let notes = tracks[track_index as int].notes;
            let note = notes[note_index as int];
            assert(tracks[track_index as int].keeps_floor());
            assert(note.length > LENGTH_FLOOR);
            if type_ == NoteOperationType::CreateAndMove {
                let without = state.with_notes(
                    track_index as int,
                    notes.remove(note_index as int),
                );
                assert forall|i: int| 0 <= i < without.project.tracks.len() implies (
                #[trigger] without.project.tracks[i]).keeps_floor() by {
                    assert(tracks[i].keeps_floor());
                    if i == track_index {
                        assert forall|k: int|
                            0 <= k < notes.remove(note_index as int).len() implies (
                        #[trigger] notes.remove(note_index as int)[k]).length > LENGTH_FLOOR by {
                            if k < note_index {
                                assert(notes[k].length > LENGTH_FLOOR);
                            } else {
                                assert(notes[k + 1].length > LENGTH_FLOOR);
                            }
                        }
                    }
                }
                let idle = ModelView { mouse_operation: MouseOperation::Idle, ..without };
                assert(idle.keeps_floor());
                lemma_command_keeps_floor(idle, ActionView::CreateNote(track_index, note));
            } else {
                // the note is put back as it was before the drag, whatever
                // length that was, and the edit that follows floors it
                let next = state.released().0;
                assert forall|i: int| 0 <= i < next.project.tracks.len() implies (
                #[trigger] next.project.tracks[i]).keeps_floor() by {
                    assert(tracks[i].keeps_floor());
                }
                assert forall|i: int| 0 <= i < next.undo_stack.len() implies (
                #[trigger] next.undo_stack[i]).keeps_floor() by {
                    if i < state.undo_stack.len() {
                        assert(state.undo_stack[i].keeps_floor());
                    }
                }
            }
        }
    }
}

/// A pointer move leaves no note length at or below the floor.
proof fn lemma_move_keeps_floor(state: ModelView, input: MouseInput)
    requires
        state.fits(),
        state.keeps_floor(),
        state.accepts(MsgView::MouseMove(input)),
    ensures
        state.moved(input).0.keeps_floor(),
{
    let next = state.moved(input).0;
    let tracks = state.project.tracks;
    match state.mouse_operation {
        MouseOperation::NoteOperation { note_index, type_ } => {
            if let Some(track_index) = state.selected_track_index {
                assert forall|i: int| 0 <= i < next.project.tracks.len() implies (
                #[trigger] next.project.tracks[i]).keeps_floor() by {
                    assert(tracks[i].keeps_floor());
                }
            }
        },
        MouseOperation::Idle => {
            if let Some(track_index) = state.selected_track_index {
                let notes = tracks[track_index as int].notes;
                let hit = note_at(notes, input.x as int, input.y as int);
                if input.buttons == SECONDARY_BUTTON && hit is Some {
                    crate::project::lemma_note_at(notes, input.x as int, input.y as int);
                    lemma_command_keeps_floor(
                        state,
                        ActionView::DeleteNote(track_index, hit->0),
                    );
                }
            }
        },
        _ => {},
    }
}

/// Whatever message the editor takes, the selection stays empty or on an
/// existing track. Selecting a track that is not there selects nothing, and
/// removing a track, by a message or by undo or redo, clears a selection
/// that the removal leaves without a track.
pub proof fn lemma_step_keeps_selection(state: ModelView, msg: MsgView)
    requires
        state.fits(),
        state.selection_ok(),
        state.accepts(msg),
    ensures
        state.step(msg).0.selection_ok(),
{
    let tracks = state.project.tracks;
    match msg {
        MsgView::CreateTrack => {
            lemma_command_keeps_selection(
                state,
                ActionView::CreateTrack(
                    TrackView {
                        name: new_track_name(tracks.len()),
                        notes: Seq::empty(),
                        instrument: 0,
                    },
                ),
            );
        },
        MsgView::DeleteSelectedTrack => {
            if let Some(index) = state.selected_track_index {
                lemma_command_keeps_selection(state, ActionView::DeleteTrack(index));
            }
        },
        MsgView::PianoRollMouseDown(input) => {
            if let Some(track_index) = state.selected_track_index {
                crate::project::lemma_note_at(
                    tracks[track_index as int].notes,
                    input.x as int,
                    input.y as int,
                );
            }
        },
        MsgView::MouseMove(input) => {
            if let Some(track_index) = state.selected_track_index {
                if track_index < tracks.len() {
                    crate::project::lemma_note_at(
                        tracks[track_index as int].notes,
                        input.x as int,
                        input.y as int,
                    );
                }
            }
        },
        MsgView::Undo => {
            if state.undo_stack.len() > 0 {
                lemma_command_keeps_selection(state, state.undo_stack.last());
            }
        },
        MsgView::Redo => {
            if state.redo_stack.len() > 0 {
                lemma_command_keeps_selection(state, state.redo_stack.last());
            }
        },
        _ => {},
    }
}

impl OutcomeView {
    /// Whether the outcome tells the host to start the playback timer.
    pub open spec fn starts_timer(self) -> bool {
        exists|i: int| 0 <= i < self.effects.len() && (#[trigger] self.effects[i]) is StartTimer
    }

    /// Whether the outcome tells the host to stop the playback timer.
    pub open spec fn cancels_timer(self) -> bool {
        exists|i: int| 0 <= i < self.effects.len() && (#[trigger] self.effects[i]) is CancelTimer
    }
}

/// The host's timer runs exactly while the editor says that it is playing:
/// an update asks for the timer to be started exactly when playback goes on,
/// and for it to be stopped exactly when playback goes off. So no timer is
/// started while another runs.
pub proof fn lemma_timer_follows_playing(state: ModelView, msg: MsgView)
    ensures
        state.step(msg).1.starts_timer() <==> !state.playing && state.step(msg).0.playing,
        state.step(msg).1.cancels_timer() <==> state.playing && !state.step(msg).0.playing,
{
    let next = state.step(msg).0;
    let outcome = state.step(msg).1;
    match msg {
        MsgView::TogglePlayback => {
            if state.has_output {
                if state.playing {
                    assert(outcome.effects[1] is CancelTimer);
                } else {
                    assert(outcome.effects[1] is StartTimer);
                }
            }
        },
        MsgView::IncrementPlayProgress => {
            if outcome.effects.len() > 0 {
                assert(outcome.effects[0] is CancelTimer);
            }
        },
        _ => {},
    }
}

} // verus!
