//! The commands that edit a project, each of which hands back the command
//! that undoes it, and the two stacks that undo and redo are made of.
//!
//! Tracks and notes are named by position. A command that removes one is
//! undone by a command that adds it again at the end of its list, so undoing
//! the removal of anything but the last entry changes the order.
//!
//! Two rules of the data model are kept by the commands themselves. A
//! selection never names a track that is not there: removing a track clears
//! a selection that the removal leaves without a track. And an edit never
//! leaves a note a length at or below the floor: it leaves one grid step
//! instead.

use vstd::prelude::*;
use crate::model::{Model, ModelView};
use crate::project::{
    Note, ProjectView, TimeSignature, Track, TrackView, LENGTH_FLOOR, MIN_INTERVAL,
};

verus! {

/// A command on the project.
#[derive(Clone, Debug, PartialEq, Eq)]
pub enum Action {
    RenameProject(String),
    SetBpm(u32),
    SetTimeSignatureTop(u32),
    SetTimeSignatureBottom(u32),
    /// Adds the track at the end of the track list.
    CreateTrack(Track),
    /// Removes the track at the index. A selection that names that track, or
    /// the last track, is cleared.
    DeleteTrack(usize),
    RenameTrack(usize, String),
    SetTrackInstrument(usize, u8),
    /// Adds the note at the end of the notes of the track at the index.
    CreateNote(usize, Note),
    /// Removes, from the track at the first index, the note at the second.
    DeleteNote(usize, usize),
    /// Gives the note at the two indices a new offset, pitch and length. A
    /// length at or below the floor gives the note one grid step.
    EditNote(usize, usize, i32, u8, i32),
}

/// A command as contracts see it.
pub enum ActionView {
    RenameProject(Seq<char>),
    SetBpm(u32),
    SetTimeSignatureTop(u32),
    SetTimeSignatureBottom(u32),
    CreateTrack(TrackView),
    DeleteTrack(usize),
    RenameTrack(usize, Seq<char>),
    SetTrackInstrument(usize, u8),
    CreateNote(usize, Note),
    DeleteNote(usize, usize),
    EditNote(usize, usize, i32, u8, i32),
}

impl View for Action {
    type V = ActionView;

    open spec fn view(&self) -> ActionView {
        match *self {
            Action::RenameProject(name) => ActionView::RenameProject(name@),
            Action::SetBpm(bpm) => ActionView::SetBpm(bpm),
            Action::SetTimeSignatureTop(top) => ActionView::SetTimeSignatureTop(top),
            Action::SetTimeSignatureBottom(bottom) => ActionView::SetTimeSignatureBottom(bottom),
            Action::CreateTrack(track) => ActionView::CreateTrack(track@),
            Action::DeleteTrack(index) => ActionView::DeleteTrack(index),
            Action::RenameTrack(index, name) => ActionView::RenameTrack(index, name@),
            Action::SetTrackInstrument(index, instrument) => ActionView::SetTrackInstrument(
                index,
                instrument,
            ),
            Action::CreateNote(track, note) => ActionView::CreateNote(track, note),
            Action::DeleteNote(track, note) => ActionView::DeleteNote(track, note),
            Action::EditNote(track, note, offset, pitch, length) => ActionView::EditNote(
                track,
                note,
                offset,
                pitch,
                length,
            ),
        }
    }
}

impl ProjectView {
    /// The project with the track at `index` replaced.
    pub open spec fn with_track(self, index: int, track: TrackView) -> ProjectView {
        ProjectView { tracks: self.tracks.update(index, track), ..self }
    }
}

impl ModelView {
    /// Whether every index that the command names exists.
    pub open spec fn admits(self, action: ActionView) -> bool {
        let tracks = self.project.tracks;
        match action {
            ActionView::RenameProject(_) => true,
            ActionView::SetBpm(_) => true,
            ActionView::SetTimeSignatureTop(_) => true,
            ActionView::SetTimeSignatureBottom(_) => true,
            ActionView::CreateTrack(_) => true,
            ActionView::DeleteTrack(index) => index < tracks.len(),
            ActionView::RenameTrack(index, _) => index < tracks.len(),
            ActionView::SetTrackInstrument(index, _) => index < tracks.len(),
            ActionView::CreateNote(track, _) => track < tracks.len(),
            ActionView::DeleteNote(track, note) => track < tracks.len() && note
                < tracks[track as int].notes.len(),
            ActionView::EditNote(track, note, _, _, _) => track < tracks.len() && note
                < tracks[track as int].notes.len(),
        }
    }

    /// The state that the command leaves. Only the project and the selection
    /// change.
    ///
    /// Adding the first track selects it. Removing a track clears the
    /// selection if it named that track, or named the last track, whose
    /// index is no more. An edit that would leave a note a length at or
    /// below the floor leaves it one grid step long.
    pub open spec fn after(self, action: ActionView) -> ModelView {
        let project = self.project;
        let tracks = project.tracks;
        match action {
            ActionView::RenameProject(name) => ModelView {
                project: ProjectView { name, ..project },
                ..self
            },
            ActionView::SetBpm(bpm) => ModelView { project: ProjectView { bpm, ..project }, ..self },
            ActionView::SetTimeSignatureTop(top) => ModelView {
                project: ProjectView {
                    time_signature: TimeSignature { top, ..project.time_signature },
                    ..project
                },
                ..self
            },
            ActionView::SetTimeSignatureBottom(bottom) => ModelView {
                project: ProjectView {
                    time_signature: TimeSignature { bottom, ..project.time_signature },
                    ..project
                },
                ..self
            },
            ActionView::CreateTrack(track) => ModelView {
                project: ProjectView { tracks: tracks.push(track), ..project },
                selected_track_index: if tracks.len() == 0 {
                    Some(0usize)
                } else {
                    self.selected_track_index
                },
                ..self
            },
            ActionView::DeleteTrack(index) => ModelView {
                project: ProjectView { tracks: tracks.remove(index as int), ..project },
                selected_track_index: match self.selected_track_index {
                    Some(selected) => if selected == index || selected + 1 >= tracks.len() {
                        None
                    } else {
                        Some(selected)
                    },
                    None => None,
                },
                ..self
            },
            ActionView::RenameTrack(index, name) => ModelView {
                project: project.with_track(
                    index as int,
                    TrackView { name, ..tracks[index as int] },
                ),
                ..self
            },
            ActionView::SetTrackInstrument(index, instrument) => ModelView {
                project: project.with_track(
                    index as int,
                    TrackView { instrument, ..tracks[index as int] },
                ),
                ..self
            },
            ActionView::CreateNote(track, note) => ModelView {
                project: project.with_track(
                    track as int,
                    TrackView {
                        notes: tracks[track as int].notes.push(note),
                        ..tracks[track as int]
                    },
                ),
                ..self
            },
            ActionView::DeleteNote(track, note) => ModelView {
                project: project.with_track(
                    track as int,
                    TrackView {
                        notes: tracks[track as int].notes.remove(note as int),
                        ..tracks[track as int]
                    },
                ),
                ..self
            },
            ActionView::EditNote(track, note, offset, pitch, length) => ModelView {
                project: project.with_track(
                    track as int,
                    TrackView {
                        notes: tracks[track as int].notes.update(
                            note as int,
                            (Note {
                                offset,
                                pitch,
                                length,
                                ..tracks[track as int].notes[note as int]
                            }).floored(),
                        ),
                        ..tracks[track as int]
                    },
                ),
                ..self
            },
        }
    }

    /// The command that undoes `action`, done in this state.
    pub open spec fn inverse_of(self, action: ActionView) -> ActionView {
        let project = self.project;
        let tracks = project.tracks;
        match action {
            ActionView::RenameProject(_) => ActionView::RenameProject(project.name),
            ActionView::SetBpm(_) => ActionView::SetBpm(project.bpm),
            ActionView::SetTimeSignatureTop(_) => ActionView::SetTimeSignatureTop(
                project.time_signature.top,
            ),
            ActionView::SetTimeSignatureBottom(_) => ActionView::SetTimeSignatureBottom(
                project.time_signature.bottom,
            ),
            ActionView::CreateTrack(_) => ActionView::DeleteTrack(tracks.len() as usize),
            ActionView::DeleteTrack(index) => ActionView::CreateTrack(tracks[index as int]),
            ActionView::RenameTrack(index, _) => ActionView::RenameTrack(
                index,
                tracks[index as int].name,
            ),
            ActionView::SetTrackInstrument(index, _) => ActionView::SetTrackInstrument(
                index,
                tracks[index as int].instrument,
            ),
            ActionView::CreateNote(track, _) => ActionView::DeleteNote(
                track,
                tracks[track as int].notes.len() as usize,
            ),
            ActionView::DeleteNote(track, note) => ActionView::CreateNote(
                track,
                tracks[track as int].notes[note as int],
            ),
            ActionView::EditNote(track, note, _, _, _) => {
                let old = tracks[track as int].notes[note as int];
                ActionView::EditNote(track, note, old.offset, old.pitch, old.length)
            },
        }
    }
}

impl ModelView {
    /// The state after the command has been done and its inverse recorded
    /// for undo. The redo stack stays as it is.
    pub open spec fn performed(self, action: ActionView) -> ModelView {
        ModelView {
            undo_stack: self.undo_stack.push(self.inverse_of(action)),
            ..self.after(action)
        }
    }

    /// The state after the latest recorded command has been taken back, or
    /// the same state if nothing is recorded.
    pub open spec fn undone(self) -> ModelView {
        if self.undo_stack.len() == 0 {
            self
        } else {
            let action = self.undo_stack.last();
            ModelView {
                undo_stack: self.undo_stack.drop_last(),
                redo_stack: self.redo_stack.push(self.inverse_of(action)),
                ..self.after(action)
            }
        }
    }

    /// The state after the latest command taken back has been done again,
    /// or the same state if none has been taken back.
    pub open spec fn redone(self) -> ModelView {
        if self.redo_stack.len() == 0 {
            self
        } else {
            let action = self.redo_stack.last();
            ModelView {
                undo_stack: self.undo_stack.push(self.inverse_of(action)),
                redo_stack: self.redo_stack.drop_last(),
                ..self.after(action)
            }
        }
    }

    /// Whether undo can run: the latest recorded command, if there is one,
    /// names only indices that exist.
    pub open spec fn can_undo(self) -> bool {
        self.undo_stack.len() > 0 ==> self.admits(self.undo_stack.last())
    }

    /// Whether redo can run: the latest command taken back, if there is one,
    /// names only indices that exist.
    pub open spec fn can_redo(self) -> bool {
        self.redo_stack.len() > 0 ==> self.admits(self.redo_stack.last())
    }

    /// Whether undoing `action` right after it brings back the project it
    /// was done in.
    ///
    /// A removal is undone by adding at the end, so it is restored only if
    /// moving the removed entry to the end of its list changes nothing: the
    /// entry is the last, or every entry behind it is equal to it. An edit is
    /// undone by an edit, which leaves no length at or below the floor, so it
    /// is restored only if the note was longer than that.
    pub open spec fn restores_project(self, action: ActionView) -> bool {
        let tracks = self.project.tracks;
        match action {
            ActionView::DeleteTrack(index) => tracks.remove(index as int).push(tracks[index as int])
                == tracks,
            ActionView::DeleteNote(track, note) => {
                let notes = tracks[track as int].notes;
                notes.remove(note as int).push(notes[note as int]) == notes
            },
            ActionView::EditNote(track, note, _, _, _) => tracks[track as int].notes[note as int].length
                > LENGTH_FLOOR,
            _ => true,
        }
    }

    /// Whether undoing `action` right after it brings back the selection it
    /// was done in.
    ///
    /// Only the removal of a track touches a selection that names a track.
    /// A removed track comes back selected only if it comes back as the only
    /// track. So the removal of the only track is restored if that track was
    /// selected, and the removal of one of several if neither that track nor
    /// the last was.
    pub open spec fn restores_selection(self, action: ActionView) -> bool {
        let tracks = self.project.tracks;
        match action {
            ActionView::DeleteTrack(index) => if tracks.len() == 1 {
                self.selected_track_index == Some(index)
            } else {
                self.selected_track_index != Some(index) && self.selected_track_index != Some(
                    (tracks.len() - 1) as usize,
                )
            },
            _ => true,
        }
    }

    /// Whether undoing `action` right after it brings back the state it was
    /// done in: the project and the selection.
    pub open spec fn restores(self, action: ActionView) -> bool {
        self.restores_project(action) && self.restores_selection(action)
    }

    /// Whether doing `action` again is what undoes its undo: the command
    /// removes nothing but the last entry of a list, and it is no edit to a
    /// length at or below the floor.
    pub open spec fn repeats(self, action: ActionView) -> bool {
        let tracks = self.project.tracks;
        match action {
            ActionView::DeleteTrack(index) => index + 1 == tracks.len(),
            ActionView::DeleteNote(track, note) => note + 1 == tracks[track as int].notes.len(),
            ActionView::EditNote(_, _, _, _, length) => length > LENGTH_FLOOR,
            _ => true,
        }
    }

    /// The state after the commands have been done in turn, each recorded
    /// for undo.
    pub open spec fn performed_all(self, actions: Seq<ActionView>) -> ModelView
        decreases actions.len(),
    {
        if actions.len() == 0 {
            self
        } else {
            self.performed(actions.first()).performed_all(actions.drop_first())
        }
    }

    /// Whether each of the commands, done in turn from this state, is one
    /// that doing again is what undoes its undo.
    pub open spec fn repeats_all(self, actions: Seq<ActionView>) -> bool
        decreases actions.len(),
    {
        actions.len() > 0 ==> {
            &&& self.repeats(actions.first())
            &&& self.performed(actions.first()).repeats_all(actions.drop_first())
        }
    }

    /// The state after `count` undos.
    pub open spec fn undone_times(self, count: nat) -> ModelView
        decreases count,
    {
        if count == 0 {
            self
        } else {
            self.undone_times((count - 1) as nat).undone()
        }
    }

    /// Whether every state of the run fits, and each of the commands, done
    /// in turn from this state, names only indices that exist and is one
    /// whose undo restores the project.
    pub open spec fn restores_project_all(self, actions: Seq<ActionView>) -> bool
        decreases actions.len(),
    {
        &&& self.fits()
        &&& actions.len() > 0 ==> {
            &&& self.admits(actions.first())
            &&& self.restores_project(actions.first())
            &&& self.performed(actions.first()).restores_project_all(actions.drop_first())
        }
    }

    /// Whether every state of the run fits, and each of the commands, done
    /// in turn from this state, is done while the selection names an
    /// existing track, names only indices that exist, and is one whose undo
    /// restores the project and the selection.
    pub open spec fn restores_all(self, actions: Seq<ActionView>) -> bool
        decreases actions.len(),
    {
        &&& self.fits()
        &&& actions.len() > 0 ==> {
            &&& self.selection_ok()
            &&& self.admits(actions.first())
            &&& self.restores(actions.first())
            &&& self.performed(actions.first()).restores_all(actions.drop_first())
        }
    }
}

/// What a command does to the project, which command undoes it and whether
/// it names existing indices depend on the project alone.
pub proof fn lemma_project_decides(a: ModelView, b: ModelView, action: ActionView)
    requires
        a.project == b.project,
    ensures
        a.admits(action) == b.admits(action),
        a.inverse_of(action) == b.inverse_of(action),
        a.after(action).project == b.after(action).project,
        a.restores_project(action) == b.restores_project(action),
        a.repeats(action) == b.repeats(action),
{
}

/// A command leaves the selection empty or on an existing track, whatever
/// it removes, and removing the selected track clears the selection.
pub proof fn lemma_command_keeps_selection(state: ModelView, action: ActionView)
    requires
        state.fits(),
        state.admits(action),
    ensures
        state.selection_ok() ==> state.after(action).selection_ok(),
        action is DeleteTrack ==> state.after(action).selection_ok(),
        action == ActionView::DeleteTrack(state.selected_track_index->0)
            && state.selected_track_index is Some ==> state.after(action).selected_track_index
            is None,
{
}

/// The command that undoes a command can be done right after it. Doing it
/// restores the project exactly if `restores_project` says so: always, but
/// for a removal that moving the removed entry to the end of its list would
/// not undo, and for an edit of a note that is no longer than the floor.
///
/// This holds in every state that fits, for every command that names
/// existing indices.
pub proof fn lemma_inverse_restores_project(state: ModelView, action: ActionView)
    requires
        state.fits(),
        state.admits(action),
    ensures
        state.after(action).admits(state.inverse_of(action)),
        state.after(action).after(state.inverse_of(action)).project == state.project
            <==> state.restores_project(action),
{
    let next = state.after(action);
    let inverse = state.inverse_of(action);
    let tracks = state.project.tracks;
    let back = next.after(inverse);
    match action {
        ActionView::CreateTrack(track) => {
            assert(back.project.tracks =~= tracks);
        },
        ActionView::DeleteTrack(index) => {
            assert(back.project.tracks =~= tracks.remove(index as int).push(tracks[index as int]));
        },
        ActionView::RenameTrack(index, _) => {
            assert(back.project.tracks =~= tracks);
        },
        ActionView::SetTrackInstrument(index, _) => {
            assert(back.project.tracks =~= tracks);
        },
        ActionView::CreateNote(track, note) => {
            assert(back.project.tracks[track as int].notes =~= tracks[track as int].notes);
            assert(back.project.tracks =~= tracks);
        },
        ActionView::DeleteNote(track, note) => {
            let notes = tracks[track as int].notes;
            let moved = notes.remove(note as int).push(notes[note as int]);
            assert(back.project.tracks[track as int].notes =~= moved);
            if moved == notes {
                assert(back.project.tracks =~= tracks);
            } else {
                assert(back.project.tracks[track as int] != tracks[track as int]);
            }
        },
        ActionView::EditNote(track, note, _, _, _) => {
            let notes = tracks[track as int].notes;
            let old = notes[note as int];
            assert(back.project.tracks[track as int].notes =~= notes.update(
                note as int,
                old.floored(),
            ));
            if old.length > LENGTH_FLOOR {
                assert(back.project.tracks[track as int].notes =~= notes);
                assert(back.project.tracks =~= tracks);
            } else {
                assert(back.project.tracks[track as int].notes[note as int] != notes[note as int]);
            }
        },
        _ => {},
    }
}

/// The command that undoes a command can be done right after it, and doing
/// it restores the project and the selection exactly if `restores` says so:
/// always, but for a removal that moving the removed entry to the end of its
/// list would not undo, for an edit of a note that is no longer than the
/// floor, and for the removal of a track whose coming back would change the
/// selection.
///
/// This holds in every state that fits and whose selection names an
/// existing track, for every command that names existing indices.
pub proof fn lemma_inverse_restores(state: ModelView, action: ActionView)
    requires
        state.fits(),
        state.selection_ok(),
        state.admits(action),
    ensures
        state.after(action).admits(state.inverse_of(action)),
        state.after(action).selection_ok(),
        state.after(action).after(state.inverse_of(action)) == state <==> state.restores(action),
{
    lemma_inverse_restores_project(state, action);
    let back = state.after(action).after(state.inverse_of(action));
    assert(back == (ModelView {
        project: back.project,
        selected_track_index: back.selected_track_index,
        ..state
    }));
    assert(back.selected_track_index == state.selected_track_index
        <==> state.restores_selection(action));
}

/// Undoing a command and then undoing the undo does the command again: the
/// inverse of the inverse of a command is that command, unless the command
/// removes an entry that is not the last of its list or edits a note to a
/// length at or below the floor.
pub proof fn lemma_inverse_of_inverse(state: ModelView, action: ActionView)
    requires
        state.fits(),
        state.admits(action),
        state.repeats(action),
    ensures
        state.after(action).inverse_of(state.inverse_of(action)) == action,
{
    let tracks = state.project.tracks;
    match action {
        ActionView::DeleteNote(track, note) => {
            assert(state.after(action).project.tracks[track as int].notes.len() == note);
        },
        _ => {},
    }
}

/// Redo takes back an undo: a command done, undone and redone leaves the
/// state that the command left, stacks and all.
///
/// This holds from a state that fits and whose selection names an existing
/// track, for every command that names existing indices, is one that
/// `restores` admits and is one that `repeats`.
pub proof fn lemma_redo_brings_back(state: ModelView, action: ActionView)
    requires
        state.fits(),
        state.selection_ok(),
        state.admits(action),
        state.restores(action),
        state.repeats(action),
    ensures
        state.performed(action).undone().can_redo(),
        state.performed(action).undone().redone() == state.performed(action),
{
    let done = state.performed(action);
    let undone = done.undone();
    lemma_inverse_restores(state, action);
    lemma_inverse_of_inverse(state, action);
    assert(done.undo_stack.last() == state.inverse_of(action));
    assert(done.undo_stack.drop_last() =~= state.undo_stack);
    assert(done.after(state.inverse_of(action)) == (ModelView {
        undo_stack: done.undo_stack,
        ..state
    }));
    assert(undone == (ModelView { redo_stack: state.redo_stack.push(action), ..state }));
    assert(undone.redo_stack.last() == action);
    assert(undone.redo_stack.drop_last() =~= state.redo_stack);
}

/// A run of commands followed by as many undos leaves the project and the
/// undo stack as they were before the run, and every undo can run. The redo
/// stack has gained one command for each undo. Nothing else changes but,
/// possibly, the selection.
///
/// This holds for runs in which every state fits and every command names
/// existing indices and is one that `restores_project` admits, wherever the
/// selection stands.
pub proof fn lemma_undo_takes_back_project(state: ModelView, actions: Seq<ActionView>)
    requires
        state.restores_project_all(actions),
    ensures
        state.performed_all(actions).undone_times(actions.len()) == (ModelView {
            selected_track_index: state.performed_all(actions).undone_times(
                actions.len(),
            ).selected_track_index,
            redo_stack: state.performed_all(actions).undone_times(actions.len()).redo_stack,
            ..state
        }),
        state.performed_all(actions).undone_times(actions.len()).redo_stack.len()
            == state.redo_stack.len() + actions.len(),
        forall|count: nat|
            count < actions.len() ==> (#[trigger] state.performed_all(actions).undone_times(
                count,
            )).can_undo(),
    decreases actions.len(),
{
    let all = state.performed_all(actions);
    let end = all.undone_times(actions.len());
    if actions.len() > 0 {
        let first = actions.first();
        let rest = actions.drop_first();
        let next = state.performed(first);
        let inverse = state.inverse_of(first);
        lemma_inverse_restores_project(state, first);
        lemma_undo_takes_back_project(next, rest);
        let before = next.performed_all(rest).undone_times(rest.len());
        assert(all == next.performed_all(rest));
        assert(end == before.undone());
        assert(next.undo_stack.last() == inverse);
        assert(next.undo_stack.drop_last() =~= state.undo_stack);
        lemma_project_decides(before, state.after(first), inverse);
        assert forall|count: nat| count < actions.len() implies (#[trigger] all.undone_times(
            count,
        )).can_undo() by {
            if count == rest.len() {
                assert(all.undone_times(count) == before);
            }
        }
    }
}

/// A run of commands followed by as many undos leaves everything as it was
/// before the run but the redo stack, which has gained one command for each
/// undo.
///
/// This holds for runs in which every state fits and every command is done
/// while the selection names an existing track, names existing indices and
/// is one that `restores` admits.
pub proof fn lemma_undo_takes_back(state: ModelView, actions: Seq<ActionView>)
    requires
        state.restores_all(actions),
    ensures
        state.performed_all(actions).undone_times(actions.len()) == (ModelView {
            redo_stack: state.performed_all(actions).undone_times(actions.len()).redo_stack,
            ..state
        }),
        state.performed_all(actions).undone_times(actions.len()).redo_stack.len()
            == state.redo_stack.len() + actions.len(),
    decreases actions.len(),
{
    let end = state.performed_all(actions).undone_times(actions.len());
    if actions.len() > 0 {
        let first = actions.first();
        let rest = actions.drop_first();
        let next = state.performed(first);
        lemma_inverse_restores(state, first);
        lemma_undo_takes_back(next, rest);
        let before = next.performed_all(rest).undone_times(rest.len());
        assert(before == (ModelView { redo_stack: before.redo_stack, ..next }));
        assert(end == before.undone());
        assert(next.undo_stack.last() == state.inverse_of(first));
        assert(next.undo_stack.drop_last() =~= state.undo_stack);
        assert(before.after(state.inverse_of(first)) == (ModelView {
            undo_stack: before.undo_stack,
            redo_stack: before.redo_stack,
            ..state
        }));
    }
}

/// If every command of the run is one that `repeats`, the redo stack of
/// `lemma_undo_takes_back` has gained the commands of the run themselves,
/// the first of them on top.
pub proof fn lemma_undo_readies_redo(state: ModelView, actions: Seq<ActionView>)
    requires
        state.restores_all(actions),
        state.repeats_all(actions),
    ensures
        state.performed_all(actions).undone_times(actions.len()).redo_stack == state.redo_stack
            + actions.reverse(),
    decreases actions.len(),
{
    let end = state.performed_all(actions).undone_times(actions.len());
    if actions.len() == 0 {
        assert(state.redo_stack + actions.reverse() =~= state.redo_stack);
    } else {
        let first = actions.first();
        let rest = actions.drop_first();
        let next = state.performed(first);
        lemma_inverse_restores(state, first);
        lemma_inverse_of_inverse(state, first);
        lemma_undo_takes_back(next, rest);
        lemma_undo_readies_redo(next, rest);
        let before = next.performed_all(rest).undone_times(rest.len());
        assert(before == (ModelView { redo_stack: before.redo_stack, ..next }));
        assert(end == before.undone());
        assert(next.undo_stack.last() == state.inverse_of(first));
        assert((state.redo_stack + rest.reverse()).push(first) =~= state.redo_stack
            + actions.reverse());
    }
}

impl Model {
    /// Whether every index that the command names exists in the project as
    /// it is now.
    pub fn admits(&self, action: &Action) -> (r: bool)
        ensures
            r == self@.admits(action@),
    {
        let n: usize = self.project.tracks.len();
        match action {
            Action::RenameProject(_) => true,
            Action::SetBpm(_) => true,
            Action::SetTimeSignatureTop(_) => true,
            Action::SetTimeSignatureBottom(_) => true,
            Action::CreateTrack(_) => true,
            Action::DeleteTrack(index) => *index < n,
            Action::RenameTrack(index, _) => *index < n,
            Action::SetTrackInstrument(index, _) => *index < n,
            Action::CreateNote(track, _) => *track < n,
            Action::DeleteNote(track, note) => *track < n && *note
                < self.project.tracks[*track].notes.len(),
            Action::EditNote(track, note, _, _, _) => *track < n && *note
                < self.project.tracks[*track].notes.len(),
        }
    }

    /// Carries out the command and returns the command that undoes it.
    ///
    /// Adding the first track selects it. Removing a track clears a
    /// selection that names it or that the removal leaves without a track.
    /// An edit that would leave a note a length at or below the floor leaves
    /// it one grid step long. Nothing else but the project changes.
    ///
    /// The command handed back can be done at once, and doing it brings
    /// back the project, and the selection, exactly where `restores_project`
    /// and `restores` say so.
    ///
    /// The tracks and notes that the command names must exist: a command
    /// made for another state of the project is the caller's fault, and
    /// `admits` tells.
    pub fn perform_action_impl(&mut self, action: Action) -> (inverse: Action)
        requires
            old(self)@.admits(action@),
        ensures
            final(self)@ == old(self)@.after(action@),
            inverse@ == old(self)@.inverse_of(action@),
            final(self)@.admits(inverse@),
            old(self)@.selection_ok() ==> final(self)@.selection_ok(),
            final(self)@.after(inverse@).project == old(self)@.project
                <==> old(self)@.restores_project(action@),
            old(self)@.selection_ok() ==> (final(self)@.after(inverse@) == old(self)@
                <==> old(self)@.restores(action@)),
    {
        proof {
            self.lemma_fits();
            lemma_command_keeps_selection(self@, action@);
            lemma_inverse_restores_project(self@, action@);
            if self@.selection_ok() {
                lemma_inverse_restores(self@, action@);
            }
        }
        match action {
            Action::RenameProject(new_name) => {
                let old_name = self.project.name.clone();
                self.project.name = new_name;
                Action::RenameProject(old_name)
            },
            Action::SetBpm(new_bpm) => {
                let old_bpm: u32 = self.project.bpm;
                self.project.bpm = new_bpm;
                Action::SetBpm(old_bpm)
            },
            Action::SetTimeSignatureTop(top) => {
                let old_top: u32 = self.project.time_signature.top;
                self.project.time_signature.top = top;
                Action::SetTimeSignatureTop(old_top)
            },
            Action::SetTimeSignatureBottom(bottom) => {
                let old_bottom: u32 = self.project.time_signature.bottom;
                self.project.time_signature.bottom = bottom;
                Action::SetTimeSignatureBottom(old_bottom)
            },
            Action::CreateTrack(track) => {
                let old_len: usize = self.project.tracks.len();
                self.project.tracks.push(track);
                if old_len == 0 {
                    self.selected_track_index = Some(0);
                }
                assert(self@.project.tracks =~= old(self)@.project.tracks.push(track@));
                Action::DeleteTrack(old_len)
            },
            Action::DeleteTrack(index) => {
                if let Some(selected_track_index) = self.selected_track_index {
                    if index == selected_track_index || selected_track_index
                        >= self.project.tracks.len() - 1 {
                        self.selected_track_index = None;
                    }
                }
                let track = self.project.tracks.remove(index);
                assert(self@.project.tracks =~= old(self)@.project.tracks.remove(index as int));
                Action::CreateTrack(track)
            },
            Action::RenameTrack(index, new_name) => {
                let track = &mut self.project.tracks[index];
                let old_name = track.name.clone();
                track.name = new_name;
                assert(self@.project.tracks =~= old(self)@.project.tracks.update(
                    index as int,
                    TrackView { name: new_name@, ..old(self)@.project.tracks[index as int] },
                ));
                Action::RenameTrack(index, old_name)
            },
            Action::SetTrackInstrument(track_index, instrument) => {
                let track = &mut self.project.tracks[track_index];
                let old_instrument: u8 = track.instrument;
                track.instrument = instrument;
                assert(self@.project.tracks =~= old(self)@.project.tracks.update(
                    track_index as int,
                    TrackView { instrument, ..old(self)@.project.tracks[track_index as int] },
                ));
                Action::SetTrackInstrument(track_index, old_instrument)
            },
            Action::CreateNote(track_index, note) => {
                let track = &mut self.project.tracks[track_index];
                let note_index: usize = track.notes.len();
                track.notes.push(note);
                assert(self@.project.tracks =~= old(self)@.project.tracks.update(
                    track_index as int,
                    TrackView {
                        notes: old(self)@.project.tracks[track_index as int].notes.push(note),
                        ..old(self)@.project.tracks[track_index as int]
                    },
                ));
                Action::DeleteNote(track_index, note_index)
            },
            Action::DeleteNote(track_index, note_index) => {
                let note = self.project.tracks[track_index].notes.remove(note_index);
                assert(self@.project.tracks =~= old(self)@.project.tracks.update(
                    track_index as int,
                    TrackView {
                        notes: old(self)@.project.tracks[track_index as int].notes.remove(
                            note_index as int,
                        ),
                        ..old(self)@.project.tracks[track_index as int]
                    },
                ));
                Action::CreateNote(track_index, note)
            },
            Action::EditNote(track_index, note_index, new_offset, new_pitch, new_length) => {
                let note = &mut self.project.tracks[track_index].notes[note_index];
                let old_offset: i32 = note.offset;
                let old_pitch: u8 = note.pitch;
                let old_length: i32 = note.length;
                note.offset = new_offset;
                note.pitch = new_pitch;
                note.length = if new_length <= LENGTH_FLOOR {
                    MIN_INTERVAL
                } else {
                    new_length
                };
                assert(self@.project.tracks =~= old(self)@.project.tracks.update(
                    track_index as int,
                    TrackView {
                        notes: old(self)@.project.tracks[track_index as int].notes.update(
                            note_index as int,
                            (Note {
                                offset: new_offset,
                                pitch: new_pitch,
                                length: new_length,
                                ..old(self)@.project.tracks[track_index as int].notes[note_index as int]
                            }).floored(),
                        ),
                        ..old(self)@.project.tracks[track_index as int]
                    },
                ));
                Action::EditNote(track_index, note_index, old_offset, old_pitch, old_length)
            },
        }
    }
}

impl Model {
    /// Carries out the command and records its inverse for undo.
    ///
    /// The redo stack is left as it is: commands that were undone before
    /// stay available to redo, though they were recorded in another state.
    /// The command can be undone at once, and that brings back the project
    /// exactly where `restores_project` says so. The tracks and notes that
    /// the command names must exist.
    pub fn perform_action(&mut self, action: Action)
        requires
            old(self)@.admits(action@),
        ensures
            final(self)@ == old(self)@.performed(action@),
            final(self)@.can_undo(),
            old(self)@.selection_ok() ==> final(self)@.selection_ok(),
            final(self)@.undone().project == old(self)@.project
                <==> old(self)@.restores_project(action@),
    {
        let inverse = self.perform_action_impl(action);
        self.undo_stack.push(inverse);
        assert(self@.undo_stack =~= old(self)@.undo_stack.push(inverse@));
        assert(self@.undo_stack.last() == inverse@);
    }

    /// Whether `undo_last` can run.
    pub fn can_undo(&self) -> (r: bool)
        ensures
            r == self@.can_undo(),
    {
        let n: usize = self.undo_stack.len();
        n == 0 || self.admits(&self.undo_stack[n - 1])
    }

    /// Whether `redo_last` can run.
    pub fn can_redo(&self) -> (r: bool)
        ensures
            r == self@.can_redo(),
    {
        let n: usize = self.redo_stack.len();
        n == 0 || self.admits(&self.redo_stack[n - 1])
    }

    /// Takes back the latest command recorded for undo and records, for
    /// redo, the command that does it again. Does nothing if none is
    /// recorded.
    ///
    /// The tracks and notes that the recorded command names must exist, as
    /// they do when commands are undone in the order they were done.
    pub fn undo_last(&mut self)
        requires
            old(self)@.can_undo(),
        ensures
            final(self)@ == old(self)@.undone(),
            old(self)@.selection_ok() ==> final(self)@.selection_ok(),
    {
        match self.undo_stack.pop() {
            None => {
                assert(self@.undo_stack =~= old(self)@.undo_stack);
            },
            Some(action) => {
                assert(self@.undo_stack =~= old(self)@.undo_stack.drop_last());
                let inverse = self.perform_action_impl(action);
                self.redo_stack.push(inverse);
                assert(self@.redo_stack =~= old(self)@.redo_stack.push(inverse@));
            },
        }
    }

    /// Does again the latest command taken back and records its inverse for
    /// undo. Does nothing if none has been taken back.
    ///
    /// The tracks and notes that the command names must exist. They may not
    /// if other commands were done since it was taken back: `can_redo`
    /// tells.
    pub fn redo_last(&mut self)
        requires
            old(self)@.can_redo(),
        ensures
            final(self)@ == old(self)@.redone(),
            old(self)@.selection_ok() ==> final(self)@.selection_ok(),
    {
        match self.redo_stack.pop() {
            None => {
                assert(self@.redo_stack =~= old(self)@.redo_stack);
            },
            Some(action) => {
                assert(self@.redo_stack =~= old(self)@.redo_stack.drop_last());
                let inverse = self.perform_action_impl(action);
                self.undo_stack.push(inverse);
                assert(self@.undo_stack =~= old(self)@.undo_stack.push(inverse@));
            },
        }
    }
}

} // verus!
