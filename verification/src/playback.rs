//! What live playback sends, and when.
//!
//! The host owns the output port and the timer. It asks here which messages
//! are due and sends them.

use vstd::prelude::*;
use crate::midi::{MidiMessageType, FULL_VELOCITY};
use crate::model::{Effect, Model, Msg, Outcome};
use crate::project::{Note, Track, TrackView};

verus! {

/// Milliseconds in one grid step at one beat per minute.
pub const TICK_AT_UNIT_TEMPO: u32 = 15_000;

/// A message for the output port. With a delay, the port is to send it that
/// many milliseconds from now.
#[derive(Clone, Copy, Debug, PartialEq, Eq)]
pub struct TimedMessage {
    pub message: MidiMessageType,
    pub delay: Option<u32>,
}

/// The period of the playback timer in milliseconds: the time that one grid
/// step takes at the tempo `bpm`, rounded down. A whole note lasts
/// `240 / bpm` seconds. A tempo of zero gives the longest period there is.
pub open spec fn spec_tick_interval(bpm: u32) -> u32 {
    if bpm == 0 {
        u32::MAX
    } else {
        (TICK_AT_UNIT_TEMPO / bpm) as u32
    }
}

/// The period of the playback timer in milliseconds at the tempo `bpm`.
pub fn tick_interval(bpm: u32) -> (r: u32)
    ensures
        r == spec_tick_interval(bpm),
{
    if bpm == 0 {
        u32::MAX
    } else {
        TICK_AT_UNIT_TEMPO / bpm
    }
}

/// What a note sends at the time `now`: a note-on as it starts, or else a
/// note-off as it ends.
pub open spec fn note_due(note: Note, now: int) -> Seq<MidiMessageType> {
    if now == note.offset {
        seq![MidiMessageType::NoteOn(note.pitch, FULL_VELOCITY)]
    } else if now == note.spec_end() {
        seq![MidiMessageType::NoteOff(note.pitch, FULL_VELOCITY)]
    } else {
        Seq::empty()
    }
}

/// What the notes send at the time `now`, note by note.
pub open spec fn notes_due(notes: Seq<Note>, now: int) -> Seq<MidiMessageType>
    decreases notes.len(),
{
    if notes.len() == 0 {
        Seq::empty()
    } else {
        notes_due(notes.drop_last(), now) + note_due(notes.last(), now)
    }
}

/// What the tracks send at the time `now`: for each track its instrument,
/// then what its notes send.
pub open spec fn tracks_due(tracks: Seq<TrackView>, now: int) -> Seq<MidiMessageType>
    decreases tracks.len(),
{
    if tracks.len() == 0 {
        Seq::empty()
    } else {
        tracks_due(tracks.drop_last(), now) + seq![
            MidiMessageType::ChangeInstrument(tracks.last().instrument),
        ] + notes_due(tracks.last().notes, now)
    }
}

/// The messages to send at one tick of the playback timer, when playback
/// stands at the time `local_offset`: for each track its instrument, then a
/// note-on for each note that starts now and a note-off for each that ends
/// now.
pub fn tick_messages(tracks: &Vec<Track>, local_offset: i64) -> (due: Vec<MidiMessageType>)
    ensures
        due@ == tracks_due(tracks@.map_values(|t: Track| t@), local_offset as int),
{
    let ghost views = tracks@.map_values(|t: Track| t@);
    let mut due: Vec<MidiMessageType> = Vec::new();
    let track_count: usize = tracks.len();
    let mut track_index: usize = 0;
    while track_index < track_count
        invariant
            track_count == tracks@.len(),
            track_index <= track_count,
            views == tracks@.map_values(|t: Track| t@),
            due@ == tracks_due(views.take(track_index as int), local_offset as int),
        decreases track_count - track_index,
    {
        let track = &tracks[track_index];
        let ghost before = due@;
        due.push(MidiMessageType::ChangeInstrument(track.instrument));
        let note_count: usize = track.notes.len();
        let mut note_index: usize = 0;
        while note_index < note_count
            invariant
                note_count == track.notes@.len(),
                note_index <= note_count,
                due@ == before + seq![MidiMessageType::ChangeInstrument(track.instrument)]
                    + notes_due(track.notes@.take(note_index as int), local_offset as int),
            decreases note_count - note_index,
        {
            let note = &track.notes[note_index];
            proof {
                assert(track.notes@.take(note_index + 1).drop_last() == track.notes@.take(
                    note_index as int,
                ));
            }
            if local_offset == note.offset as i64 {
                due.push(MidiMessageType::NoteOn(note.pitch, FULL_VELOCITY));
            } else if local_offset == note.end() {
                due.push(MidiMessageType::NoteOff(note.pitch, FULL_VELOCITY));
            }
            note_index += 1;
        }
        proof {
            assert(track.notes@.take(note_count as int) == track.notes@);
            assert(views.take(track_index + 1).drop_last() == views.take(track_index as int));
            assert(views.take(track_index + 1).last() == track@);
        }
        track_index += 1;
    }
    proof {
        assert(views.take(track_count as int) == views);
    }
    due
}

/// A note-off for every pitch, lowest first, all to be sent at once.
pub open spec fn spec_all_notes_off() -> Seq<TimedMessage> {
    Seq::new(
        128,
        |pitch: int|
            TimedMessage {
                message: MidiMessageType::NoteOff(pitch as u8, FULL_VELOCITY),
                delay: None,
            },
    )
}

/// A note-off for every pitch, lowest first, all to be sent at once.
pub fn all_notes_off() -> (r: Vec<TimedMessage>)
    ensures
        r@ == spec_all_notes_off(),
{
    let mut messages: Vec<TimedMessage> = Vec::new();
    let mut pitch: u8 = 0;
    while pitch < 128
        invariant
            pitch <= 128,
            messages@ == spec_all_notes_off().take(pitch as int),
        decreases 128 - pitch,
    {
        messages.push(
            TimedMessage { message: MidiMessageType::NoteOff(pitch, FULL_VELOCITY), delay: None },
        );
        assert(messages@ =~= spec_all_notes_off().take(pitch + 1));
        pitch += 1;
    }
    assert(spec_all_notes_off().take(128) =~= spec_all_notes_off());
    messages
}

/// The note-off that silences `pitch`, to be sent at once or after `timeout`
/// milliseconds.
pub open spec fn spec_stop_midi_note(pitch: u8, timeout: Option<u32>) -> TimedMessage {
    TimedMessage { message: MidiMessageType::NoteOff(pitch, FULL_VELOCITY), delay: timeout }
}

/// The messages that sound one note: the instrument and the note-on at
/// once, the note-off after `duration` milliseconds.
pub open spec fn spec_play_midi_note(instrument: u8, pitch: u8, duration: u32) -> Seq<
    TimedMessage,
> {
    seq![
        TimedMessage { message: MidiMessageType::ChangeInstrument(instrument), delay: None },
        TimedMessage { message: MidiMessageType::NoteOn(pitch, FULL_VELOCITY), delay: None },
        spec_stop_midi_note(pitch, Some(duration)),
    ]
}

impl Model {
    /// The message that silences `pitch` on the output port, at once or
    /// after `timeout` milliseconds. There must be an output port.
    pub fn stop_midi_note(&self, pitch: u8, timeout: Option<u32>) -> (r: TimedMessage)
        requires
            self.has_output,
        ensures
            r == spec_stop_midi_note(pitch, timeout),
    {
        TimedMessage { message: MidiMessageType::NoteOff(pitch, FULL_VELOCITY), delay: timeout }
    }

    /// The messages that sound one note on the output port for `duration`
    /// milliseconds. There must be an output port.
    pub fn play_midi_note(&self, instrument: u8, pitch: u8, duration: u32) -> (r: Vec<
        TimedMessage,
    >)
        requires
            self.has_output,
        ensures
            r@ == spec_play_midi_note(instrument, pitch, duration),
    {
        let mut messages: Vec<TimedMessage> = Vec::new();
        messages.push(
            TimedMessage { message: MidiMessageType::ChangeInstrument(instrument), delay: None },
        );
        messages.push(
            TimedMessage { message: MidiMessageType::NoteOn(pitch, FULL_VELOCITY), delay: None },
        );
        messages.push(self.stop_midi_note(pitch, Some(duration)));
        assert(messages@ =~= spec_play_midi_note(instrument, pitch, duration));
        messages
    }

    /// Starts playback, or stops it if it is on. Without an output port
    /// nothing happens. Otherwise every pitch is silenced first; then the
    /// timer is stopped and playback sent back to its start, or the timer is
    /// started with the period of one grid step at the project's tempo.
    pub fn play(&mut self) -> (outcome: Outcome)
        ensures
            final(self)@ == old(self)@.toggled().0,
            outcome@ == old(self)@.toggled().1,
    {
        if !self.has_output {
            return Outcome::quiet(false);
        }
        let mut effects: Vec<Effect> = Vec::new();
        effects.push(Effect::Play(all_notes_off()));
        if self.playing {
            self.playing = false;
            effects.push(Effect::CancelTimer);
            effects.push(Effect::Send(Msg::SetPlayProgress(0)));
        } else {
            self.playing = true;
            effects.push(
                Effect::StartTimer {
                    period: tick_interval(self.project.bpm),
                    offset: self.play_offset,
                },
            );
        }
        let outcome = Outcome { redraw: false, effects };
        assert(outcome@.effects =~= old(self)@.toggled().1.effects);
        outcome
    }
}

} // verus!
