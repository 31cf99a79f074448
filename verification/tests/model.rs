use midi_sequencer::action::Action;
use midi_sequencer::midi::MidiMessageType;
use midi_sequencer::model::{
    cursor_at, drag, grab, Cursor, Effect, Model, MouseInput, MouseOperation, Msg,
    NoteOperationType, Outcome,
};
use midi_sequencer::playback::TimedMessage;
use midi_sequencer::project::{Note, Track, LENGTH_FLOOR, MIN_INTERVAL};
use midi_sequencer::views::PIANO_KEYS_WIDTH;

const ROW: i32 = 30_000;
const STEP: i32 = 20_000;

fn note(pitch: u8, offset: i32, length: i32) -> Note {
    Note { pitch, velocity: 127, offset, length }
}

fn left(x: i32, y: i32) -> MouseInput {
    MouseInput { x, y, buttons: 1 }
}

fn right(x: i32, y: i32) -> MouseInput {
    MouseInput { x, y, buttons: 2 }
}

fn hover(x: i32, y: i32) -> MouseInput {
    MouseInput { x, y, buttons: 0 }
}

fn send(model: &mut Model, msg: Msg) -> Outcome {
    assert!(model.accepts(&msg));
    model.update(msg)
}

fn quiet(redraw: bool) -> Outcome {
    Outcome { redraw, effects: Vec::new() }
}

/// An editor with one selected track that holds the given notes.
fn with_notes(notes: Vec<Note>) -> Model {
    let mut model = Model::new();
    send(&mut model, Msg::CreateTrack);
    for n in notes {
        model.perform_action_impl(Action::CreateNote(0, n));
    }
    model.undo_stack.clear();
    model
}

/// The y of the middle of the row of a pitch.
fn row_of(pitch: i32) -> i32 {
    (127 - pitch) * ROW + ROW / 2
}

#[test]
fn the_editor_starts_empty() {
    let model = Model::new();
    assert_eq!(model.project.name, "Untitled");
    assert_eq!(model.project.bpm, 120);
    assert_eq!(model.project.time_signature.top, 4);
    assert_eq!(model.project.time_signature.bottom, 4);
    assert!(model.project.tracks.is_empty());
    assert_eq!(model.selected_track_index, None);
    assert_eq!(model.mouse_operation, MouseOperation::Idle);
    assert_eq!(model.last_placed_note_length, 1250);
    assert!(model.undo_stack.is_empty());
    assert!(model.redo_stack.is_empty());
    assert_eq!(model.play_offset, 0);
    assert_eq!(model.play_progress, 0);
    assert!(!model.midi_access);
    assert!(!model.has_output);
    assert!(!model.playing);
}

#[test]
fn granted_access_asks_for_the_first_track() {
    let mut model = Model::new();
    let outcome = send(&mut model, Msg::MidiAccessGranted(true));
    assert!(model.midi_access);
    assert!(model.has_output);
    assert_eq!(outcome, Outcome { redraw: true, effects: vec![Effect::Send(Msg::CreateTrack)] });
    let mut other = Model::new();
    send(&mut other, Msg::MidiAccessGranted(false));
    assert!(other.midi_access);
    assert!(!other.has_output);
}

#[test]
fn refused_access_drops_the_output() {
    let mut model = Model::new();
    send(&mut model, Msg::MidiAccessGranted(true));
    assert_eq!(send(&mut model, Msg::MidiAccessRefused), quiet(true));
    assert!(!model.midi_access);
    assert!(!model.has_output);
}

#[test]
fn a_chosen_output_is_tried_out() {
    let mut model = Model::new();
    let outcome = send(&mut model, Msg::SetOutputDevice);
    assert!(model.has_output);
    assert_eq!(
        outcome,
        Outcome {
            redraw: true,
            effects: vec![Effect::Play(vec![
                TimedMessage { message: MidiMessageType::ChangeInstrument(0), delay: None },
                TimedMessage { message: MidiMessageType::NoteOn(60, 127), delay: None },
                TimedMessage { message: MidiMessageType::NoteOff(60, 127), delay: Some(1000) },
            ])],
        }
    );
}

#[test]
fn a_key_of_the_keyboard_plays_its_note() {
    let mut model = Model::new();
    assert!(!model.accepts(&Msg::PlayMidiNote(5, 72)));
    send(&mut model, Msg::SetOutputDevice);
    let outcome = send(&mut model, Msg::PlayMidiNote(5, 72));
    assert_eq!(
        outcome,
        Outcome {
            redraw: false,
            effects: vec![Effect::Play(vec![
                TimedMessage { message: MidiMessageType::ChangeInstrument(5), delay: None },
                TimedMessage { message: MidiMessageType::NoteOn(72, 127), delay: None },
                TimedMessage { message: MidiMessageType::NoteOff(72, 127), delay: Some(1000) },
            ])],
        }
    );
}

#[test]
fn tracks_are_selected_and_deselected() {
    let mut model = with_notes(Vec::new());
    assert_eq!(send(&mut model, Msg::DeselectTrack), quiet(true));
    assert_eq!(model.selected_track_index, None);
    assert_eq!(send(&mut model, Msg::SelectTrack(0)), quiet(true));
    assert_eq!(model.selected_track_index, Some(0));
}

#[test]
fn selecting_a_track_that_is_not_there_selects_nothing() {
    let mut model = Model::new();
    assert_eq!(send(&mut model, Msg::SelectTrack(5)), quiet(true));
    assert_eq!(model.selected_track_index, None);
    send(&mut model, Msg::CreateTrack);
    assert_eq!(model.selected_track_index, Some(0));
    assert_eq!(send(&mut model, Msg::SelectTrack(1)), quiet(true));
    assert_eq!(model.selected_track_index, None);
    send(&mut model, Msg::SelectTrack(0));
    assert_eq!(model.selected_track_index, Some(0));
    send(&mut model, Msg::SelectTrack(usize::MAX));
    assert_eq!(model.selected_track_index, None);
}

#[test]
fn a_drag_takes_the_pitch_nearest_to_the_pointer() {
    let mut model = with_notes(Vec::new());
    // 16 pixels down is nearer to the top of the second row than to that of the first
    send(&mut model, Msg::PianoRollMouseDown(left(0, 16_000)));
    assert_eq!(model.project.tracks[0].notes, [note(126, 0, 1250)]);
    send(&mut model, Msg::MouseMove(left(0, 16_000)));
    assert_eq!(model.project.tracks[0].notes, [note(126, 0, 1250)]);
    send(&mut model, Msg::MouseMove(left(0, 15_000)));
    assert_eq!(model.project.tracks[0].notes, [note(127, 0, 1250)]);
    send(&mut model, Msg::MouseMove(left(0, 45_001)));
    assert_eq!(model.project.tracks[0].notes, [note(125, 0, 1250)]);
    assert_eq!(
        drag(&note(60, 0, 625), NoteOperationType::Move(0, 0, 60), 0, 16_000).pitch,
        126
    );
    assert_eq!(drag(&note(60, 0, 625), NoteOperationType::Move(0, 0, 60), 0, i32::MAX).pitch, 0);
    assert_eq!(
        drag(&note(60, 0, 625), NoteOperationType::CreateAndMove, 0, i32::MIN).pitch,
        127
    );
}

#[test]
fn a_placed_note_is_no_shorter_than_the_floor_allows() {
    for length in [1, 0, -1250, i32::MIN] {
        let mut model = with_notes(Vec::new());
        model.last_placed_note_length = length;
        send(&mut model, Msg::PianoRollMouseDown(left(0, 0)));
        assert_eq!(model.project.tracks[0].notes, [note(127, 0, MIN_INTERVAL)]);
    }
    let mut model = with_notes(Vec::new());
    model.last_placed_note_length = 2;
    send(&mut model, Msg::PianoRollMouseDown(left(0, 0)));
    assert_eq!(model.project.tracks[0].notes, [note(127, 0, 2)]);
}

#[test]
fn releasing_a_drag_floors_the_length_it_came_to() {
    let mut model = with_notes(vec![note(60, 0, 2500)]);
    send(&mut model, Msg::PianoRollMouseDown(left(40_000, row_of(60))));
    model.project.tracks[0].notes[0].length = 0;
    send(&mut model, Msg::PianoRollMouseUp);
    assert_eq!(model.project.tracks[0].notes, [note(60, 0, MIN_INTERVAL)]);
    assert_eq!(model.undo_stack, [Action::EditNote(0, 0, 0, 60, 0)]);
    send(&mut model, Msg::Undo);
    assert_eq!(model.project.tracks[0].notes, [note(60, 0, MIN_INTERVAL)]);
}

#[test]
fn new_tracks_are_numbered() {
    let mut model = Model::new();
    assert_eq!(send(&mut model, Msg::CreateTrack), quiet(true));
    send(&mut model, Msg::CreateTrack);
    for _ in 0..8 {
        send(&mut model, Msg::CreateTrack);
    }
    let names: Vec<&str> = model.project.tracks.iter().map(|t| t.name.as_str()).collect();
    assert_eq!(names[0], "Track 1");
    assert_eq!(names[1], "Track 2");
    assert_eq!(names[9], "Track 10");
    assert_eq!(model.project.tracks[0], Track {
        name: "Track 1".to_string(),
        notes: Vec::new(),
        instrument: 0,
    });
    assert_eq!(model.selected_track_index, Some(0));
    assert_eq!(model.undo_stack.len(), 10);
    assert_eq!(model.undo_stack[9], Action::DeleteTrack(9));
}

#[test]
fn deleting_the_selected_track_moves_the_selection_on() {
    let mut model = Model::new();
    for _ in 0..3 {
        send(&mut model, Msg::CreateTrack);
    }
    send(&mut model, Msg::SelectTrack(2));
    let outcome = send(&mut model, Msg::DeleteSelectedTrack);
    assert_eq!(outcome, Outcome { redraw: true, effects: vec![Effect::Send(Msg::SelectTrack(1))] });
    assert_eq!(model.selected_track_index, None);
    assert_eq!(model.project.tracks.len(), 2);
    send(&mut model, Msg::SelectTrack(0));
    let outcome = send(&mut model, Msg::DeleteSelectedTrack);
    assert_eq!(outcome, Outcome { redraw: true, effects: vec![Effect::Send(Msg::SelectTrack(0))] });
    assert_eq!(model.project.tracks[0].name, "Track 2");
    send(&mut model, Msg::SelectTrack(0));
    let outcome = send(&mut model, Msg::DeleteSelectedTrack);
    assert_eq!(outcome, Outcome { redraw: true, effects: vec![Effect::Send(Msg::DeselectTrack)] });
    assert!(model.project.tracks.is_empty());
}

#[test]
fn deleting_without_a_selection_does_nothing() {
    let mut model = with_notes(Vec::new());
    send(&mut model, Msg::DeselectTrack);
    assert_eq!(send(&mut model, Msg::DeleteSelectedTrack), quiet(false));
    assert_eq!(model.project.tracks.len(), 1);
    assert!(model.undo_stack.is_empty());
}

#[test]
fn the_selected_track_is_renamed_and_given_an_instrument() {
    let mut model = with_notes(Vec::new());
    assert_eq!(send(&mut model, Msg::RenameSelectedTrack("Lead".to_string())), quiet(true));
    assert_eq!(send(&mut model, Msg::SetSelectedTrackInstrument(40)), quiet(true));
    assert_eq!(model.project.tracks[0].name, "Lead");
    assert_eq!(model.project.tracks[0].instrument, 40);
    assert_eq!(
        model.undo_stack,
        [Action::RenameTrack(0, "Track 1".to_string()), Action::SetTrackInstrument(0, 0)]
    );
    send(&mut model, Msg::DeselectTrack);
    assert_eq!(send(&mut model, Msg::RenameSelectedTrack("X".to_string())), quiet(true));
    assert_eq!(send(&mut model, Msg::SetSelectedTrackInstrument(1)), quiet(true));
    assert_eq!(model.project.tracks[0].name, "Lead");
    assert_eq!(model.undo_stack.len(), 2);
}

#[test]
fn project_settings_are_commands() {
    let mut model = Model::new();
    assert_eq!(send(&mut model, Msg::SetProjectName("Opus".to_string())), quiet(true));
    assert_eq!(send(&mut model, Msg::SetBpm(90)), quiet(true));
    assert_eq!(send(&mut model, Msg::SetTimeSignatureTop(3)), quiet(true));
    assert_eq!(send(&mut model, Msg::SetTimeSignatureBottom(8)), quiet(true));
    assert_eq!(model.project.name, "Opus");
    assert_eq!(model.project.bpm, 90);
    assert_eq!(model.project.time_signature.top, 3);
    assert_eq!(model.project.time_signature.bottom, 8);
    for _ in 0..4 {
        assert_eq!(send(&mut model, Msg::Undo), quiet(true));
    }
    assert_eq!(model.project.name, "Untitled");
    assert_eq!(model.project.bpm, 120);
    assert_eq!(model.project.time_signature.top, 4);
    assert_eq!(model.project.time_signature.bottom, 4);
    for _ in 0..4 {
        assert_eq!(send(&mut model, Msg::Redo), quiet(true));
    }
    assert_eq!(model.project.name, "Opus");
    assert_eq!(model.project.time_signature.bottom, 8);
}

#[test]
fn messages_that_would_look_up_a_missing_track_are_not_accepted() {
    let mut model = with_notes(Vec::new());
    model.selected_track_index = Some(3);
    assert!(!model.accepts(&Msg::DeleteSelectedTrack));
    assert!(!model.accepts(&Msg::RenameSelectedTrack("X".to_string())));
    assert!(!model.accepts(&Msg::SetSelectedTrackInstrument(1)));
    assert!(!model.accepts(&Msg::PianoRollMouseDown(left(0, 0))));
    assert!(!model.accepts(&Msg::MouseMove(hover(0, 0))));
    assert!(model.accepts(&Msg::PianoRollMouseUp));
    assert!(model.accepts(&Msg::SelectTrack(0)));
    assert!(model.accepts(&Msg::CreateTrack));
    model.mouse_operation = MouseOperation::DragProgressBar;
    assert!(model.accepts(&Msg::PianoRollMouseDown(left(0, 0))));
    assert!(model.accepts(&Msg::MouseMove(hover(0, 0))));
    model.selected_track_index = Some(0);
    model.mouse_operation = MouseOperation::NoteOperation {
        note_index: 0,
        type_: NoteOperationType::CreateAndMove,
    };
    assert!(!model.accepts(&Msg::PianoRollMouseUp));
    assert!(!model.accepts(&Msg::MouseMove(hover(0, 0))));
}

#[test]
fn a_press_on_the_progress_bar_sets_the_start_of_playback() {
    let mut model = Model::new();
    // 50 pixels of keyboard, then 60 pixels: three grid steps
    let outcome = send(&mut model, Msg::ProgressBarMouseDown(left(110_000, 0)));
    assert_eq!(outcome, quiet(true));
    assert_eq!(model.play_offset, 3 * MIN_INTERVAL);
    assert_eq!(model.mouse_operation, MouseOperation::DragProgressBar);
    assert_eq!(send(&mut model, Msg::MouseMove(left(50_000 + 320_000, 0))), quiet(true));
    assert_eq!(model.play_offset, 10_000);
    assert_eq!(send(&mut model, Msg::ProgressBarMouseUp), quiet(false));
    assert_eq!(model.mouse_operation, MouseOperation::Idle);
    assert_eq!(model.play_offset, 10_000);
}

#[test]
fn a_press_on_the_progress_bar_during_a_drag_does_nothing() {
    let mut model = with_notes(vec![note(60, 0, 2500)]);
    send(&mut model, Msg::PianoRollMouseDown(left(40_000, row_of(60))));
    let operation = model.mouse_operation;
    assert_eq!(send(&mut model, Msg::ProgressBarMouseDown(left(110_000, 0))), quiet(false));
    assert_eq!(model.mouse_operation, operation);
    assert_eq!(model.play_offset, 0);
}

#[test]
fn the_start_of_playback_may_lie_left_of_the_piano_roll() {
    let mut model = Model::new();
    model.set_play_offset_from_mouse_x(0);
    // 50 pixels left of the roll are two and a half grid steps, which round up
    assert_eq!(model.play_offset, -2 * MIN_INTERVAL);
    model.set_play_offset_from_mouse_x(i32::MIN);
    assert_eq!(model.play_offset, -67_110_625);
    assert_eq!(PIANO_KEYS_WIDTH, 50_000);
}

#[test]
fn a_press_on_empty_roll_places_a_note() {
    let mut model = with_notes(Vec::new());
    // 65 pixels across is nearest to three grid steps, 2010 pixels down is pitch 60
    let outcome = send(&mut model, Msg::PianoRollMouseDown(left(65_000, 67 * ROW)));
    assert_eq!(outcome, quiet(true));
    assert_eq!(model.project.tracks[0].notes, [note(60, 3 * MIN_INTERVAL, 1250)]);
    assert_eq!(
        model.mouse_operation,
        MouseOperation::NoteOperation { note_index: 0, type_: NoteOperationType::CreateAndMove }
    );
    assert!(model.undo_stack.is_empty());
}

#[test]
fn releasing_a_placed_note_creates_it_as_a_command() {
    let mut model = with_notes(Vec::new());
    send(&mut model, Msg::PianoRollMouseDown(left(65_000, 67 * ROW)));
    assert_eq!(send(&mut model, Msg::PianoRollMouseUp), quiet(true));
    assert_eq!(model.mouse_operation, MouseOperation::Idle);
    assert_eq!(model.project.tracks[0].notes, [note(60, 1875, 1250)]);
    assert_eq!(model.undo_stack, [Action::DeleteNote(0, 0)]);
    send(&mut model, Msg::Undo);
    assert!(model.project.tracks[0].notes.is_empty());
    assert_eq!(model.redo_stack, [Action::CreateNote(0, note(60, 1875, 1250))]);
}

#[test]
fn a_placed_note_follows_the_pointer_until_release() {
    let mut model = with_notes(Vec::new());
    send(&mut model, Msg::PianoRollMouseDown(left(0, 0)));
    assert_eq!(model.project.tracks[0].notes, [note(127, 0, 1250)]);
    assert_eq!(send(&mut model, Msg::MouseMove(left(4 * STEP, row_of(64)))), quiet(true));
    assert_eq!(model.project.tracks[0].notes, [note(64, 4 * MIN_INTERVAL, 1250)]);
    send(&mut model, Msg::PianoRollMouseUp);
    assert_eq!(model.project.tracks[0].notes, [note(64, 2500, 1250)]);
    assert_eq!(model.undo_stack, [Action::DeleteNote(0, 0)]);
}

#[test]
fn a_press_inside_a_note_grabs_it_to_move() {
    let mut model = with_notes(vec![note(60, 2500, 2500)]);
    // the note covers 80..160 pixels; 105 pixels is nearest to grid step 5
    send(&mut model, Msg::PianoRollMouseDown(left(105_000, row_of(60))));
    assert_eq!(
        model.mouse_operation,
        MouseOperation::NoteOperation {
            note_index: 0,
            type_: NoteOperationType::Move(625, 2500, 60),
        }
    );
    assert_eq!(model.project.tracks[0].notes, [note(60, 2500, 2500)]);
}

#[test]
fn a_moved_note_keeps_its_distance_to_the_pointer() {
    let mut model = with_notes(vec![note(60, 2500, 2500)]);
    send(&mut model, Msg::PianoRollMouseDown(left(105_000, row_of(60))));
    send(&mut model, Msg::MouseMove(left(205_000, row_of(72))));
    assert_eq!(model.project.tracks[0].notes, [note(72, 10 * 625 - 625, 2500)]);
    assert_eq!(send(&mut model, Msg::PianoRollMouseUp), quiet(true));
    assert_eq!(model.project.tracks[0].notes, [note(72, 5625, 2500)]);
    assert_eq!(model.undo_stack, [Action::EditNote(0, 0, 2500, 60, 2500)]);
    send(&mut model, Msg::Undo);
    assert_eq!(model.project.tracks[0].notes, [note(60, 2500, 2500)]);
    send(&mut model, Msg::Redo);
    assert_eq!(model.project.tracks[0].notes, [note(72, 5625, 2500)]);
}

#[test]
fn a_note_may_be_moved_to_before_time_zero() {
    let mut model = with_notes(vec![note(60, 0, 2500)]);
    send(&mut model, Msg::PianoRollMouseDown(left(40_000, row_of(60))));
    send(&mut model, Msg::MouseMove(left(0, row_of(60))));
    assert_eq!(model.project.tracks[0].notes, [note(60, -1250, 2500)]);
}

#[test]
fn a_press_near_the_left_end_grabs_the_left_edge() {
    let mut model = with_notes(vec![note(60, 2500, 2500)]);
    send(&mut model, Msg::PianoRollMouseDown(left(86_000, row_of(60))));
    assert_eq!(
        model.mouse_operation,
        MouseOperation::NoteOperation {
            note_index: 0,
            type_: NoteOperationType::DragLeftEdge(2500, 2500),
        }
    );
    let mut inside = with_notes(vec![note(60, 2500, 2500)]);
    send(&mut inside, Msg::PianoRollMouseDown(left(86_001, row_of(60))));
    assert_eq!(
        inside.mouse_operation,
        MouseOperation::NoteOperation {
            note_index: 0,
            type_: NoteOperationType::Move(0, 2500, 60),
        }
    );
}

#[test]
fn a_press_near_the_right_end_grabs_the_right_edge() {
    let mut model = with_notes(vec![note(60, 2500, 2500)]);
    send(&mut model, Msg::PianoRollMouseDown(left(154_000, row_of(60))));
    assert_eq!(
        model.mouse_operation,
        MouseOperation::NoteOperation {
            note_index: 0,
            type_: NoteOperationType::DragRightEdge(2500),
        }
    );
    let mut inside = with_notes(vec![note(60, 2500, 2500)]);
    send(&mut inside, Msg::PianoRollMouseDown(left(153_999, row_of(60))));
    assert_eq!(
        inside.mouse_operation,
        MouseOperation::NoteOperation {
            note_index: 0,
            type_: NoteOperationType::Move(2500, 2500, 60),
        }
    );
}

#[test]
fn on_a_short_note_the_left_edge_wins() {
    assert_eq!(grab(&note(60, 0, 100), 3_000), NoteOperationType::DragLeftEdge(0, 100));
    assert_eq!(grab(&note(60, 0, 625), 14_000), NoteOperationType::DragRightEdge(625));
    assert_eq!(grab(&note(60, 0, 625), 13_000), NoteOperationType::Move(625, 0, 60));
}

#[test]
fn dragging_the_left_edge_keeps_the_end() {
    let mut model = with_notes(vec![note(60, 2500, 2500)]);
    send(&mut model, Msg::PianoRollMouseDown(left(80_000, row_of(60))));
    send(&mut model, Msg::MouseMove(left(40_000, row_of(30))));
    assert_eq!(model.project.tracks[0].notes, [note(60, 1250, 3750)]);
    assert_eq!(model.last_placed_note_length, 3750);
    send(&mut model, Msg::MouseMove(left(120_000, row_of(60))));
    assert_eq!(model.project.tracks[0].notes, [note(60, 3750, 1250)]);
    send(&mut model, Msg::PianoRollMouseUp);
    assert_eq!(model.undo_stack, [Action::EditNote(0, 0, 2500, 60, 2500)]);
    assert_eq!(model.project.tracks[0].notes, [note(60, 3750, 1250)]);
}

#[test]
fn dragging_the_left_edge_past_the_end_leaves_one_grid_step() {
    let mut model = with_notes(vec![note(60, 2500, 2500)]);
    send(&mut model, Msg::PianoRollMouseDown(left(80_000, row_of(60))));
    send(&mut model, Msg::MouseMove(left(300_000, row_of(60))));
    assert_eq!(model.project.tracks[0].notes, [note(60, 5000, MIN_INTERVAL)]);
    assert_eq!(model.last_placed_note_length, MIN_INTERVAL);
    send(&mut model, Msg::MouseMove(left(160_000, row_of(60))));
    assert_eq!(model.project.tracks[0].notes, [note(60, 5000, MIN_INTERVAL)]);
}

#[test]
fn dragging_the_right_edge_keeps_the_start() {
    let mut model = with_notes(vec![note(60, 2500, 2500)]);
    send(&mut model, Msg::PianoRollMouseDown(left(160_000, row_of(60))));
    send(&mut model, Msg::MouseMove(left(240_000, row_of(90))));
    assert_eq!(model.project.tracks[0].notes, [note(60, 2500, 5000)]);
    assert_eq!(model.last_placed_note_length, 5000);
    send(&mut model, Msg::PianoRollMouseUp);
    assert_eq!(model.undo_stack, [Action::EditNote(0, 0, 2500, 60, 2500)]);
    send(&mut model, Msg::Undo);
    assert_eq!(model.project.tracks[0].notes, [note(60, 2500, 2500)]);
}

#[test]
fn dragging_the_right_edge_to_the_start_leaves_one_grid_step() {
    let mut model = with_notes(vec![note(60, 2500, 2500)]);
    send(&mut model, Msg::PianoRollMouseDown(left(160_000, row_of(60))));
    send(&mut model, Msg::MouseMove(left(80_000, row_of(60))));
    assert_eq!(model.project.tracks[0].notes, [note(60, 2500, MIN_INTERVAL)]);
    send(&mut model, Msg::MouseMove(left(0, row_of(60))));
    assert_eq!(model.project.tracks[0].notes, [note(60, 2500, MIN_INTERVAL)]);
    send(&mut model, Msg::PianoRollMouseUp);
    assert_eq!(model.project.tracks[0].notes, [note(60, 2500, MIN_INTERVAL)]);
    assert_eq!(model.last_placed_note_length, MIN_INTERVAL);
}

#[test]
fn a_drag_never_leaves_a_length_at_or_below_the_floor() {
    assert_eq!(LENGTH_FLOOR, 1);
    let kinds = [
        NoteOperationType::DragLeftEdge(0, 0),
        NoteOperationType::DragRightEdge(0),
        NoteOperationType::Move(0, 0, 0),
        NoteOperationType::CreateAndMove,
    ];
    let notes = [
        note(60, 0, 0),
        note(60, 0, 1),
        note(60, 0, 2),
        note(60, 0, -625),
        note(60, 5000, 625),
        note(60, i32::MAX, i32::MAX),
        note(60, i32::MIN, i32::MIN),
        note(60, i32::MIN, i32::MAX),
        note(60, i32::MAX, i32::MIN),
    ];
    for kind in kinds {
        for n in notes {
            for x in [i32::MIN, -STEP, 0, 1, 100_000, 160_001, i32::MAX] {
                let after = drag(&n, kind, x, 0);
                assert!(after.length > LENGTH_FLOOR);
                assert_eq!(after.velocity, n.velocity);
            }
        }
    }
}

#[test]
fn a_length_of_exactly_the_floor_becomes_one_grid_step() {
    let moved = drag(&note(60, 0, 1), NoteOperationType::Move(0, 0, 60), 0, 0);
    assert_eq!(moved, note(127, 0, MIN_INTERVAL));
    let kept = drag(&note(60, 0, 2), NoteOperationType::Move(0, 0, 60), 0, 0);
    assert_eq!(kept, note(127, 0, 2));
}

#[test]
fn drag_results_stay_within_what_a_note_can_store() {
    let far = drag(&note(60, 0, 625), NoteOperationType::Move(i64::MIN, 0, 60), 0, 0);
    assert_eq!(far.offset, i32::MAX);
    let near = drag(&note(60, 0, 625), NoteOperationType::Move(i64::MAX, 0, 60), 0, 0);
    assert_eq!(near.offset, i32::MIN);
    let wide = drag(
        &note(60, i32::MAX, i32::MAX),
        NoteOperationType::DragLeftEdge(0, 0),
        i32::MIN,
        0,
    );
    assert_eq!(wide.offset, -67_108_750);
    assert_eq!(wide.length, i32::MAX);
}

#[test]
fn a_press_during_a_drag_does_nothing() {
    let mut model = with_notes(vec![note(60, 0, 2500)]);
    model.mouse_operation = MouseOperation::DragProgressBar;
    assert_eq!(send(&mut model, Msg::PianoRollMouseDown(left(200_000, 0))), quiet(false));
    assert_eq!(model.project.tracks[0].notes.len(), 1);
    assert_eq!(model.mouse_operation, MouseOperation::DragProgressBar);
}

#[test]
fn the_piano_roll_ignores_the_pointer_without_a_selected_track() {
    let mut model = with_notes(vec![note(60, 0, 2500)]);
    send(&mut model, Msg::DeselectTrack);
    assert_eq!(send(&mut model, Msg::PianoRollMouseDown(left(200_000, 0))), quiet(false));
    assert_eq!(send(&mut model, Msg::MouseMove(right(40_000, row_of(60)))), quiet(false));
    assert_eq!(send(&mut model, Msg::MouseMove(hover(40_000, row_of(60)))), quiet(false));
    model.mouse_operation = MouseOperation::DragProgressBar;
    assert_eq!(send(&mut model, Msg::PianoRollMouseUp), quiet(false));
    assert_eq!(model.mouse_operation, MouseOperation::DragProgressBar);
    assert_eq!(model.project.tracks[0].notes, [note(60, 0, 2500)]);
}

#[test]
fn a_release_without_a_drag_only_ends_the_press() {
    let mut model = with_notes(vec![note(60, 0, 2500)]);
    assert_eq!(send(&mut model, Msg::PianoRollMouseUp), quiet(false));
    model.mouse_operation = MouseOperation::DragProgressBar;
    assert_eq!(send(&mut model, Msg::PianoRollMouseUp), quiet(false));
    assert_eq!(model.mouse_operation, MouseOperation::Idle);
    assert!(model.undo_stack.is_empty());
}

#[test]
fn other_buttons_do_nothing_on_press() {
    let mut model = with_notes(vec![note(60, 0, 2500)]);
    for buttons in [0u16, 3, 4, 8] {
        let input = MouseInput { x: 40_000, y: row_of(60), buttons };
        assert_eq!(send(&mut model, Msg::PianoRollMouseDown(input)), quiet(false));
    }
    assert_eq!(model.mouse_operation, MouseOperation::Idle);
    assert_eq!(model.project.tracks[0].notes.len(), 1);
}

#[test]
fn the_secondary_button_deletes_the_note_under_the_pointer() {
    let mut model = with_notes(vec![note(60, 0, 2500), note(62, 0, 2500)]);
    assert_eq!(send(&mut model, Msg::PianoRollMouseDown(right(40_000, row_of(60)))), quiet(true));
    assert_eq!(model.project.tracks[0].notes, [note(62, 0, 2500)]);
    assert_eq!(model.undo_stack, [Action::CreateNote(0, note(60, 0, 2500))]);
    assert_eq!(
        send(&mut model, Msg::PianoRollMouseDown(right(40_000, row_of(60)))),
        quiet(false)
    );
    assert_eq!(send(&mut model, Msg::MouseMove(right(40_000, row_of(62)))), quiet(true));
    assert!(model.project.tracks[0].notes.is_empty());
    assert_eq!(model.undo_stack.len(), 2);
}

#[test]
fn the_pointer_shows_what_a_press_would_grab() {
    let mut model = with_notes(vec![note(60, 2500, 2500)]);
    let cursor = |model: &mut Model, x: i32, y: i32| {
        let outcome = send(model, Msg::MouseMove(hover(x, y)));
        assert!(!outcome.redraw);
        outcome.effects
    };
    assert_eq!(cursor(&mut model, 120_000, row_of(60)), [Effect::SetCursor(Cursor::Move)]);
    assert_eq!(cursor(&mut model, 86_000, row_of(60)), [Effect::SetCursor(Cursor::Resize)]);
    assert_eq!(cursor(&mut model, 154_000, row_of(60)), [Effect::SetCursor(Cursor::Resize)]);
    assert_eq!(cursor(&mut model, 86_001, row_of(60)), [Effect::SetCursor(Cursor::Move)]);
    assert_eq!(cursor(&mut model, 79_999, row_of(60)), [Effect::SetCursor(Cursor::Auto)]);
    assert_eq!(cursor(&mut model, 120_000, row_of(61)), [Effect::SetCursor(Cursor::Auto)]);
    assert_eq!(
        send(&mut model, Msg::MouseMove(right(0, 0))),
        Outcome { redraw: false, effects: vec![Effect::SetCursor(Cursor::Auto)] }
    );
}

#[test]
fn the_pointer_shape_goes_by_the_first_note_under_it() {
    let track = Track {
        name: "T".to_string(),
        notes: vec![note(60, 0, 5000), note(60, 2500, 2500)],
        instrument: 0,
    };
    // 82 pixels: inside the first note, on the left handle of the second
    assert_eq!(cursor_at(&track, 82_000, row_of(60)), Cursor::Move);
    assert_eq!(track.get_note_at_position(82_000, row_of(60)), Some(1));
}

#[test]
fn playback_needs_an_output() {
    let mut model = Model::new();
    assert_eq!(send(&mut model, Msg::TogglePlayback), quiet(false));
    assert!(!model.playing);
}

#[test]
fn playback_starts_and_stops() {
    let mut model = with_notes(vec![note(60, 0, 2500)]);
    send(&mut model, Msg::SetOutputDevice);
    send(&mut model, Msg::SetBpm(100));
    model.set_play_offset_from_mouse_x(50_000 + 2 * STEP);
    let started = send(&mut model, Msg::TogglePlayback);
    assert!(model.playing);
    assert!(!started.redraw);
    assert_eq!(started.effects.len(), 2);
    match &started.effects[0] {
        Effect::Play(silence) => {
            assert_eq!(silence.len(), 128);
            for (pitch, message) in silence.iter().enumerate() {
                assert_eq!(
                    *message,
                    TimedMessage {
                        message: MidiMessageType::NoteOff(pitch as u8, 127),
                        delay: None,
                    }
                );
            }
        }
        other => panic!("{:?}", other),
    }
    assert_eq!(started.effects[1], Effect::StartTimer { period: 150, offset: 1250 });
    let stopped = send(&mut model, Msg::TogglePlayback);
    assert!(!model.playing);
    assert!(!stopped.redraw);
    assert_eq!(stopped.effects.len(), 3);
    assert_eq!(stopped.effects[0], started.effects[0]);
    assert_eq!(stopped.effects[1], Effect::CancelTimer);
    assert_eq!(stopped.effects[2], Effect::Send(Msg::SetPlayProgress(0)));
}

#[test]
fn playback_moves_on_with_each_tick_and_stops_at_the_end() {
    let mut model = with_notes(vec![note(60, 0, 1250), note(62, 1250, 625)]);
    send(&mut model, Msg::SetOutputDevice);
    send(&mut model, Msg::TogglePlayback);
    assert_eq!(send(&mut model, Msg::IncrementPlayProgress), quiet(true));
    assert_eq!(model.play_progress, 625);
    assert_eq!(send(&mut model, Msg::IncrementPlayProgress), quiet(true));
    assert_eq!(model.play_progress, 1250);
    // the project is 1875 long: the third tick comes to its end, the fourth passes it
    assert_eq!(send(&mut model, Msg::IncrementPlayProgress), quiet(true));
    assert_eq!(model.play_progress, 1875);
    assert!(model.playing);
    let last = send(&mut model, Msg::IncrementPlayProgress);
    assert_eq!(last, Outcome { redraw: true, effects: vec![Effect::CancelTimer] });
    assert_eq!(model.play_progress, 0);
    assert!(!model.playing);
}

#[test]
fn playback_stops_once_it_has_passed_the_end() {
    let mut model = with_notes(vec![note(60, 0, 624)]);
    send(&mut model, Msg::IncrementPlayProgress);
    assert_eq!(model.play_progress, 0);
    let mut longer = with_notes(vec![note(60, 0, 625)]);
    send(&mut longer, Msg::IncrementPlayProgress);
    assert_eq!(longer.play_progress, 625);
    send(&mut longer, Msg::IncrementPlayProgress);
    assert_eq!(longer.play_progress, 0);
}

#[test]
fn playback_counts_from_where_it_started() {
    let mut model = with_notes(vec![note(60, 0, 2500)]);
    model.play_offset = 1250;
    send(&mut model, Msg::IncrementPlayProgress);
    assert_eq!(model.play_progress, 625);
    send(&mut model, Msg::IncrementPlayProgress);
    assert_eq!(model.play_progress, 1250);
    assert_eq!(send(&mut model, Msg::IncrementPlayProgress), quiet(true));
    assert_eq!(model.play_progress, 0);
}

#[test]
fn a_tick_without_a_timer_still_moves_playback() {
    let mut model = Model::new();
    assert_eq!(send(&mut model, Msg::IncrementPlayProgress), quiet(true));
    assert_eq!(model.play_progress, 0);
    assert!(!model.playing);
    assert_eq!(send(&mut model, Msg::SetPlayProgress(-5000)), quiet(true));
    assert_eq!(model.play_progress, -5000);
    send(&mut model, Msg::IncrementPlayProgress);
    assert_eq!(model.play_progress, -4375);
    send(&mut model, Msg::SetPlayProgress(i32::MAX));
    send(&mut model, Msg::IncrementPlayProgress);
    assert_eq!(model.play_progress, 0);
}

#[test]
fn export_hands_the_file_to_the_host() {
    let mut model = with_notes(vec![note(60, 0, 2500)]);
    send(&mut model, Msg::SetProjectName("Opus".to_string()));
    let outcome = send(&mut model, Msg::ExportMidi);
    assert!(!outcome.redraw);
    assert_eq!(outcome.effects.len(), 1);
    match &outcome.effects[0] {
        Effect::Download { file_name, data } => {
            assert_eq!(file_name, "Opus.mid");
            assert_eq!(*data, midi_sequencer::midi::export_midi(&model.project));
        }
        other => panic!("{:?}", other),
    }
}

#[test]
fn from_first_track_to_exported_file() {
    let mut model = Model::new();
    let granted = send(&mut model, Msg::MidiAccessGranted(true));
    for effect in granted.effects {
        match effect {
            Effect::Send(msg) => {
                send(&mut model, msg);
            }
            other => panic!("{:?}", other),
        }
    }
    assert_eq!(model.selected_track_index, Some(0));
    model.perform_action(Action::CreateNote(0, note(60, 0, 2500)));
    let outcome = send(&mut model, Msg::ExportMidi);
    let data = match &outcome.effects[0] {
        Effect::Download { file_name, data } => {
            assert_eq!(file_name, "Untitled.mid");
            data.clone()
        }
        other => panic!("{:?}", other),
    };
    assert_eq!(&data[0..4], b"MThd");
    assert_eq!(&data[4..8], &[0, 0, 0, 6]);
    assert_eq!(&data[8..10], &[0, 0]);
    assert_eq!(&data[10..12], &[0, 1]);
    assert_eq!(&data[12..14], &1024u16.to_be_bytes());
    assert_eq!(&data[14..18], b"MTrk");
    let length = u32::from_be_bytes([data[18], data[19], data[20], data[21]]) as usize;
    assert_eq!(data.len(), 22 + length);
    let events = &data[22..];
    assert_eq!(
        events,
        &[0x00, 0xC0, 0, 0x00, 0x90, 60, 127, 0x88, 0x00, 0x80, 60, 127, 0x00, 0xFF, 0x2F, 0x00]
    );
    assert_eq!(events.iter().filter(|b| **b == 0xC0).count(), 1);
    assert_eq!(events.iter().filter(|b| **b == 0x90).count(), 1);
    assert_eq!(events.iter().filter(|b| **b == 0x80).count(), 1);
}

#[test]
fn no_message_brings_a_length_to_the_floor() {
    let mut model = Model::new();
    let script = vec![
        Msg::CreateTrack,
        Msg::PianoRollMouseDown(left(100_000, row_of(60))),
        Msg::MouseMove(left(10_000, row_of(61))),
        Msg::PianoRollMouseUp,
        Msg::PianoRollMouseDown(left(50_000, row_of(61))),
        Msg::MouseMove(left(-900_000, row_of(61))),
        Msg::PianoRollMouseUp,
        Msg::PianoRollMouseDown(left(0, row_of(61))),
        Msg::MouseMove(left(900_000, row_of(61))),
        Msg::PianoRollMouseUp,
        Msg::PianoRollMouseDown(left(300_000, row_of(10))),
        Msg::PianoRollMouseUp,
        Msg::Undo,
        Msg::Undo,
        Msg::Redo,
        Msg::PianoRollMouseDown(right(300_000, row_of(10))),
        Msg::Undo,
        Msg::Undo,
        Msg::Undo,
        Msg::Redo,
        Msg::Redo,
    ];
    for msg in script {
        if !model.accepts(&msg) {
            continue;
        }
        model.update(msg);
        assert!(model.last_placed_note_length > LENGTH_FLOOR);
        for track in &model.project.tracks {
            for n in &track.notes {
                assert!(n.length > LENGTH_FLOOR);
            }
        }
    }
    assert!(!model.undo_stack.is_empty());
}

#[test]
fn the_selection_never_comes_to_name_a_missing_track() {
    let mut model = Model::new();
    let script = vec![
        Msg::CreateTrack,
        Msg::CreateTrack,
        Msg::SelectTrack(1),
        Msg::DeleteSelectedTrack,
        Msg::SelectTrack(0),
        Msg::CreateTrack,
        Msg::SelectTrack(7),
        Msg::CreateTrack,
        Msg::SelectTrack(2),
        Msg::Undo,
        Msg::Redo,
        Msg::SelectTrack(2),
        Msg::Undo,
        Msg::Undo,
        Msg::SelectTrack(0),
        Msg::PianoRollMouseDown(left(0, 0)),
        Msg::PianoRollMouseUp,
        Msg::DeleteSelectedTrack,
        Msg::Undo,
        Msg::SelectTrack(0),
        Msg::Undo,
        Msg::Undo,
        Msg::Redo,
    ];
    for msg in script {
        if !model.accepts(&msg) {
            continue;
        }
        model.update(msg);
        assert!(model.selection_ok());
    }
}

#[test]
fn a_selection_is_in_order_while_it_names_a_track() {
    let mut model = Model::new();
    assert!(model.selection_ok());
    model.selected_track_index = Some(0);
    assert!(!model.selection_ok());
    send(&mut model, Msg::CreateTrack);
    assert!(model.selection_ok());
    model.selected_track_index = Some(1);
    assert!(!model.selection_ok());
}

#[test]
fn undoing_a_track_below_a_selected_last_track_clears_the_selection() {
    let mut model = Model::new();
    model.perform_action_impl(Action::CreateTrack(Track {
        name: "A".to_string(),
        notes: Vec::new(),
        instrument: 0,
    }));
    model.perform_action_impl(Action::CreateTrack(Track {
        name: "B".to_string(),
        notes: Vec::new(),
        instrument: 0,
    }));
    model.undo_stack.push(Action::DeleteTrack(0));
    send(&mut model, Msg::SelectTrack(1));
    send(&mut model, Msg::Undo);
    assert_eq!(model.selected_track_index, None);
    assert_eq!(model.project.tracks.len(), 1);
    assert!(model.selection_ok());
    assert!(model.accepts(&Msg::DeleteSelectedTrack));
}
