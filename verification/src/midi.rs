//! MIDI messages, the message stream of a project, and its encoding as a
//! Standard MIDI File.

use vstd::prelude::*;
use crate::project::{Note, Project, ProjectView, TrackView, WHOLE_NOTE};

verus! {

/// Velocity of every note-on and note-off that the sequencer sends.
pub const FULL_VELOCITY: u8 = 0x7f;

/// A channel message on MIDI channel one.
#[derive(Clone, Copy, Debug, PartialEq, Eq, Structural)]
pub enum MidiMessageType {
    /// Program change: the instrument.
    ChangeInstrument(u8),
    /// Note on: pitch and velocity.
    NoteOn(u8, u8),
    /// Note off: pitch and velocity.
    NoteOff(u8, u8),
}

/// A message and the time at which it is due, in units of musical time.
#[derive(Clone, Copy, Debug, PartialEq, Eq, Structural)]
pub struct MidiMessage {
    pub offset: i64,
    pub type_: MidiMessageType,
}

impl MidiMessageType {
    /// The status byte and the data bytes of the message.
    pub open spec fn bytes(&self) -> Seq<u8> {
        match *self {
            MidiMessageType::ChangeInstrument(instrument) => seq![0xC0u8, instrument],
            MidiMessageType::NoteOn(pitch, velocity) => seq![0x90u8, pitch, velocity],
            MidiMessageType::NoteOff(pitch, velocity) => seq![0x80u8, pitch, velocity],
        }
    }

    /// The status byte and the data bytes of the message.
    pub fn to_bytes(&self) -> (r: Vec<u8>)
        ensures
            r@ == self.bytes(),
    {
        let mut bytes: Vec<u8> = Vec::new();
        match self {
            MidiMessageType::ChangeInstrument(instrument) => {
                bytes.push(0xC0);
                bytes.push(*instrument);
            },
            MidiMessageType::NoteOn(pitch, velocity) => {
                bytes.push(0x90);
                bytes.push(*pitch);
                bytes.push(*velocity);
            },
            MidiMessageType::NoteOff(pitch, velocity) => {
                bytes.push(0x80);
                bytes.push(*pitch);
                bytes.push(*velocity);
            },
        }
        assert(bytes@ =~= self.bytes());
        bytes
    }
}

/// The leading bytes of a variable-length quantity: the base-128 digits of
/// `n`, the most significant first, each with the continuation bit set.
/// Zero has no digits.
pub open spec fn varlen_lead(n: nat) -> Seq<u8>
    decreases n,
{
    if n == 0 {
        Seq::empty()
    } else {
        varlen_lead(n / 128).push((0x80 + n % 128) as u8)
    }
}

/// The variable-length quantity for `n`: the base-128 digits of `n`, the most
/// significant first, with the continuation bit set on all but the last.
pub open spec fn varlen(n: nat) -> Seq<u8> {
    varlen_lead(n / 128).push((n % 128) as u8)
}

/// The number that the seven low bits of each byte spell in base 128, the
/// first byte being the most significant.
pub open spec fn varlen_value(bytes: Seq<u8>) -> nat
    decreases bytes.len(),
{
    if bytes.len() == 0 {
        0
    } else {
        varlen_value(bytes.drop_last()) * 128 + (bytes.last() % 128) as nat
    }
}

/// The leading bytes for `n` spell `n`, all carry the continuation bit, the
/// first of them has a digit other than zero, and below `128^k` there are at
/// most `k` of them.
pub proof fn lemma_varlen_lead(n: nat)
    ensures
        varlen_value(varlen_lead(n)) == n,
        forall|i: int| 0 <= i < varlen_lead(n).len() ==> #[trigger] varlen_lead(n)[i] >= 0x80,
        n > 0 ==> varlen_lead(n).len() > 0 && varlen_lead(n)[0] != 0x80,
        n == 0 ==> varlen_lead(n).len() == 0,
        n < 128 ==> varlen_lead(n).len() <= 1,
        n < 128 * 128 ==> varlen_lead(n).len() <= 2,
        n < 128 * 128 * 128 ==> varlen_lead(n).len() <= 3,
        n < 128 * 128 * 128 * 128 ==> varlen_lead(n).len() <= 4,
        n < 128 * 128 * 128 * 128 * 128 ==> varlen_lead(n).len() <= 5,
    decreases n,
{
    if n > 0 {
        let front = varlen_lead(n / 128);
        let digit = (0x80 + n % 128) as u8;
        lemma_varlen_lead(n / 128);
        assert(front.push(digit).drop_last() =~= front);
        assert(digit % 128 == n % 128);
        if n / 128 > 0 {
            assert(varlen_lead(n)[0] == front[0]);
        }
    }
}

/// Decoding a variable-length quantity gives back the number it was made
/// from. Every byte but the last carries the continuation bit and the last
/// does not, no quantity longer than one byte starts with an empty digit,
/// and a 32-bit number takes between one and five bytes.
pub proof fn lemma_varlen_round_trip(n: nat)
    ensures
        varlen_value(varlen(n)) == n,
        varlen(n).len() >= 1,
        varlen(n).last() < 0x80,
        forall|i: int| 0 <= i < varlen(n).len() - 1 ==> #[trigger] varlen(n)[i] >= 0x80,
        varlen(n).len() > 1 ==> varlen(n)[0] != 0x80,
        n < 128 <==> varlen(n).len() == 1,
        n <= u32::MAX ==> varlen(n).len() <= 5,
{
    let front = varlen_lead(n / 128);
    lemma_varlen_lead(n / 128);
    assert(varlen(n).drop_last() =~= front);
    assert forall|i: int| 0 <= i < varlen(n).len() - 1 implies #[trigger] varlen(n)[i]
        >= 0x80 by {
        assert(varlen(n)[i] == front[i]);
    }
    if varlen(n).len() > 1 {
        assert(varlen(n)[0] == front[0]);
    }
}

/// Encodes `value` as a MIDI variable-length quantity: base 128, most
/// significant digit first, the high bit set on every byte but the last.
pub fn to_varlen(value: u32) -> (bytes: Vec<u8>)
    ensures
        bytes@ == varlen(value as nat),
        1 <= bytes@.len() <= 5,
        varlen_value(bytes@) == value,
{
    let mut bytes: Vec<u8> = Vec::new();
    bytes.push((value % 128) as u8);
    let mut number: u32 = value / 128;
    while number != 0
        invariant
            varlen(value as nat) == varlen_lead(number as nat) + bytes@,
        decreases number,
    {
        bytes.insert(0, (number % 128 + 0x80) as u8);
        number = number / 128;
    }
    proof {
        lemma_varlen_round_trip(value as nat);
    }
    bytes
}

/// The three messages of a note: the track's instrument and the note-on at
/// the note's start, the note-off at its end.
pub open spec fn note_messages(instrument: u8, note: Note) -> Seq<MidiMessage> {
    seq![
        MidiMessage {
            offset: note.offset as i64,
            type_: MidiMessageType::ChangeInstrument(instrument),
        },
        MidiMessage {
            offset: note.offset as i64,
            type_: MidiMessageType::NoteOn(note.pitch, FULL_VELOCITY),
        },
        MidiMessage {
            offset: note.spec_end() as i64,
            type_: MidiMessageType::NoteOff(note.pitch, FULL_VELOCITY),
        },
    ]
}

/// The messages of the notes of a track, note by note.
pub open spec fn track_messages(instrument: u8, notes: Seq<Note>) -> Seq<MidiMessage>
    decreases notes.len(),
{
    if notes.len() == 0 {
        Seq::empty()
    } else {
        track_messages(instrument, notes.drop_last()) + note_messages(instrument, notes.last())
    }
}

/// The messages of the tracks, track by track.
pub open spec fn emitted_messages(tracks: Seq<TrackView>) -> Seq<MidiMessage>
    decreases tracks.len(),
{
    if tracks.len() == 0 {
        Seq::empty()
    } else {
        emitted_messages(tracks.drop_last()) + track_messages(
            tracks.last().instrument,
            tracks.last().notes,
        )
    }
}

/// Whether the messages are in order of time.
pub open spec fn in_time_order(messages: Seq<MidiMessage>) -> bool {
    forall|i: int, j: int|
        0 <= i <= j < messages.len() ==> (#[trigger] messages[i]).offset <= (
        #[trigger] messages[j]).offset
}

/// `sorted` with `message` put in behind every message that is due no later.
pub open spec fn placed(sorted: Seq<MidiMessage>, message: MidiMessage) -> Seq<MidiMessage>
    decreases sorted.len(),
{
    if sorted.len() == 0 || sorted.last().offset <= message.offset {
        sorted.push(message)
    } else {
        placed(sorted.drop_last(), message).push(sorted.last())
    }
}

/// The messages in order of time, those due at the same time in the order
/// in which they stand in `messages`.
pub open spec fn time_ordered(messages: Seq<MidiMessage>) -> Seq<MidiMessage>
    decreases messages.len(),
{
    if messages.len() == 0 {
        messages
    } else {
        placed(time_ordered(messages.drop_last()), messages.last())
    }
}

/// The messages of `sequence` that are due at `time`, in their order.
pub open spec fn due_at(sequence: Seq<MidiMessage>, time: int) -> Seq<MidiMessage> {
    sequence.filter(|m: MidiMessage| m.offset == time)
}

/// Putting a message in place keeps time order, adds that message and no
/// other, and puts it behind the messages due at the same time.
pub proof fn lemma_placed(sorted: Seq<MidiMessage>, message: MidiMessage, time: int)
    requires
        in_time_order(sorted),
    ensures
        in_time_order(placed(sorted, message)),
        placed(sorted, message).len() == sorted.len() + 1,
        placed(sorted, message).to_multiset() == sorted.to_multiset().insert(message),
        due_at(placed(sorted, message), time) == if message.offset == time {
            due_at(sorted, time).push(message)
        } else {
            due_at(sorted, time)
        },
    decreases sorted.len(),
{
    let pred = |m: MidiMessage| m.offset == time;
    broadcast use vstd::seq_lib::group_to_multiset_ensures;

    if sorted.len() == 0 || sorted.last().offset <= message.offset {
        let out = sorted.push(message);
        assert forall|i: int, j: int| 0 <= i <= j < out.len() implies (#[trigger] out[i]).offset
            <= (#[trigger] out[j]).offset by {
            if j == sorted.len() {
                if i < sorted.len() {
                    assert(sorted[i].offset <= sorted.last().offset);
                }
            } else {
                assert(sorted[i].offset <= sorted[j].offset);
            }
        }
        Seq::lemma_filter_push(sorted, message, pred);
    } else {
        let front = sorted.drop_last();
        let last = sorted.last();
        assert forall|i: int, j: int| 0 <= i <= j < front.len() implies (
        #[trigger] front[i]).offset <= (#[trigger] front[j]).offset by {
            assert(sorted[i].offset <= sorted[j].offset);
        }
        lemma_placed(front, message, time);
        let inner = placed(front, message);
        let out = inner.push(last);
        // every message of `inner` is one of `front` or is `message`
        assert forall|i: int| 0 <= i < inner.len() implies (#[trigger] inner[i]).offset
            <= last.offset by {
            let m = inner[i];
            assert(inner.to_multiset().count(m) > 0) by {
                inner.to_multiset_ensures();
                assert(inner.contains(m));
            }
            assert(front.to_multiset().insert(message).count(m) > 0);
            if m != message {
                assert(front.to_multiset().count(m) > 0);
                front.to_multiset_ensures();
                assert(front.contains(m));
                let k = choose|k: int| 0 <= k < front.len() && front[k] == m;
                assert(sorted[k].offset <= sorted[sorted.len() - 1].offset);
            }
        }
        assert forall|i: int, j: int| 0 <= i <= j < out.len() implies (#[trigger] out[i]).offset
            <= (#[trigger] out[j]).offset by {
            if j == inner.len() {
                if i < inner.len() {
                    assert(inner[i].offset <= last.offset);
                }
            } else {
                assert(inner[i].offset <= inner[j].offset);
            }
        }
        assert(sorted == front.push(last));
        assert(out.to_multiset() == sorted.to_multiset().insert(message)) by {
            assert(out.to_multiset() =~= inner.to_multiset().insert(last));
            assert(sorted.to_multiset() =~= front.to_multiset().insert(last));
            assert(front.to_multiset().insert(message).insert(last) =~= front.to_multiset().insert(
                last,
            ).insert(message));
        }
        Seq::lemma_filter_push(inner, last, pred);
        Seq::lemma_filter_push(front, last, pred);
        if message.offset == time {
            assert(last.offset != time);
        }
    }
}

/// Ordering by time gives a sequence in order of time that holds the same
/// messages as often, and in which the messages due at any one time stand
/// in the order they had before.
pub proof fn lemma_time_ordered(messages: Seq<MidiMessage>, time: int)
    ensures
        in_time_order(time_ordered(messages)),
        time_ordered(messages).len() == messages.len(),
        time_ordered(messages).to_multiset() == messages.to_multiset(),
        due_at(time_ordered(messages), time) == due_at(messages, time),
    decreases messages.len(),
{
    let pred = |m: MidiMessage| m.offset == time;
    broadcast use vstd::seq_lib::group_to_multiset_ensures;

    if messages.len() > 0 {
        let front = messages.drop_last();
        lemma_time_ordered(front, time);
        lemma_placed(time_ordered(front), messages.last(), time);
        assert(messages == front.push(messages.last()));
        Seq::lemma_filter_push(front, messages.last(), pred);
        assert(messages.to_multiset() =~= front.to_multiset().insert(messages.last()));
    }
}

/// Whether the message is due at time zero or later and its data bytes
/// have the high bit clear, as MIDI asks of data bytes.
pub open spec fn is_plain(message: MidiMessage) -> bool {
    &&& message.offset >= 0
    &&& forall|i: int|
        1 <= i < message.type_.bytes().len() ==> #[trigger] message.type_.bytes()[i] < 0x80
}

/// Every message of a well-formed track is plain.
pub proof fn lemma_track_messages_plain(track: TrackView, count: int, index: int)
    requires
        track.wf(),
        0 <= count <= track.notes.len(),
        0 <= index < track_messages(track.instrument, track.notes.take(count)).len(),
    ensures
        is_plain(track_messages(track.instrument, track.notes.take(count))[index]),
    decreases count,
{
    let notes = track.notes.take(count);
    if count > 0 {
        assert(notes.drop_last() == track.notes.take(count - 1));
        let front = track_messages(track.instrument, notes.drop_last());
        if index < front.len() {
            lemma_track_messages_plain(track, count - 1, index);
        } else {
            assert(notes.last() == track.notes[count - 1]);
            assert(track.notes[count - 1].wf());
        }
    }
}

/// Every message that a well-formed project emits is plain, and so is every
/// message of its message stream.
pub proof fn lemma_emitted_plain(project: ProjectView)
    requires
        project.wf(),
    ensures
        forall|i: int|
            0 <= i < emitted_messages(project.tracks).len() ==> is_plain(
                #[trigger] emitted_messages(project.tracks)[i],
            ),
        forall|i: int|
            0 <= i < time_ordered(emitted_messages(project.tracks)).len() ==> is_plain(
                #[trigger] time_ordered(emitted_messages(project.tracks))[i],
            ),
{
    lemma_emitted_prefix_plain(project, project.tracks.len() as int);
    assert(project.tracks.take(project.tracks.len() as int) == project.tracks);
    let emitted = emitted_messages(project.tracks);
    let ordered = time_ordered(emitted);
    lemma_time_ordered(emitted, 0);
    assert forall|i: int| 0 <= i < ordered.len() implies is_plain(#[trigger] ordered[i]) by {
        let m = ordered[i];
        ordered.to_multiset_ensures();
        emitted.to_multiset_ensures();
        assert(ordered.contains(m));
        assert(ordered.to_multiset().count(m) > 0);
        assert(emitted.contains(m));
        let k = choose|k: int| 0 <= k < emitted.len() && emitted[k] == m;
        assert(is_plain(emitted[k]));
    }
}

/// Every message that the first `count` tracks of a well-formed project
/// emit is plain.
proof fn lemma_emitted_prefix_plain(project: ProjectView, count: int)
    requires
        project.wf(),
        0 <= count <= project.tracks.len(),
    ensures
        forall|i: int|
            0 <= i < emitted_messages(project.tracks.take(count)).len() ==> is_plain(
                #[trigger] emitted_messages(project.tracks.take(count))[i],
            ),
    decreases count,
{
    let tracks = project.tracks.take(count);
    if count > 0 {
        assert(tracks.drop_last() == project.tracks.take(count - 1));
        lemma_emitted_prefix_plain(project, count - 1);
        let front = emitted_messages(tracks.drop_last());
        let track = tracks.last();
        assert(track == project.tracks[count - 1]);
        assert(track.wf());
        assert(track.notes.take(track.notes.len() as int) == track.notes);
        assert forall|i: int| 0 <= i < emitted_messages(tracks).len() implies is_plain(
            #[trigger] emitted_messages(tracks)[i],
        ) by {
            if i >= front.len() {
                lemma_track_messages_plain(track, track.notes.len() as int, i - front.len());
            }
        }
    }
}

/// A project emits three messages for each of its notes.
pub proof fn lemma_emitted_len(tracks: Seq<TrackView>)
    ensures
        emitted_messages(tracks).len() == 3 * crate::project::count_notes(tracks),
    decreases tracks.len(),
{
    if tracks.len() > 0 {
        lemma_emitted_len(tracks.drop_last());
        lemma_track_messages_len(tracks.last().instrument, tracks.last().notes);
    }
}

/// A track emits three messages for each of its notes.
pub proof fn lemma_track_messages_len(instrument: u8, notes: Seq<Note>)
    ensures
        track_messages(instrument, notes).len() == 3 * notes.len(),
    decreases notes.len(),
{
    if notes.len() > 0 {
        lemma_track_messages_len(instrument, notes.drop_last());
    }
}

/// No message of `sequence` is due at `time` if none of its messages has
/// that time.
proof fn lemma_none_due(sequence: Seq<MidiMessage>, time: int)
    requires
        forall|k: int| 0 <= k < sequence.len() ==> (#[trigger] sequence[k]).offset != time,
    ensures
        due_at(sequence, time).len() == 0,
{
    let pred = |m: MidiMessage| m.offset == time;
    let due = sequence.filter(pred);
    if due.len() > 0 {
        sequence.lemma_filter_pred(pred, 0);
        assert(due.contains(due[0]));
        sequence.lemma_filter_contains_rev(pred, due[0]);
        let k = choose|k: int| 0 <= k < sequence.len() && sequence[k] == due[0];
        assert(sequence[k].offset != time);
    }
}

/// A message that is due at `time` in `sequence` is one of its messages.
proof fn lemma_due_is_held(sequence: Seq<MidiMessage>, time: int) -> (k: int)
    requires
        due_at(sequence, time).len() > 0,
    ensures
        0 <= k < sequence.len(),
        sequence[k].offset == time,
{
    let pred = |m: MidiMessage| m.offset == time;
    let due = sequence.filter(pred);
    sequence.lemma_filter_pred(pred, 0);
    assert(due.contains(due[0]));
    sequence.lemma_filter_contains_rev(pred, due[0]);
    choose|k: int| 0 <= k < sequence.len() && sequence[k] == due[0]
}

/// There is only one way to put messages in order of time and keep those
/// due at the same time in their order: two sequences in order of time that
/// hold, for every time, the same messages in the same order are one and the
/// same.
pub proof fn lemma_time_order_unique(a: Seq<MidiMessage>, b: Seq<MidiMessage>)
    requires
        in_time_order(a),
        in_time_order(b),
        forall|time: int| #[trigger] due_at(a, time) == due_at(b, time),
    ensures
        a == b,
    decreases a.len(),
{
    if a.len() == 0 {
        if b.len() > 0 {
            let time = b[0].offset as int;
            b.lemma_filter_contains(|m: MidiMessage| m.offset == time, 0);
            assert(due_at(b, time).len() > 0);
            lemma_none_due(a, time);
            assert(due_at(a, time) == due_at(b, time));
        }
        assert(a =~= b);
    } else {
        let last = a.last();
        let time = last.offset as int;
        let front = a.drop_last();
        assert(a == front.push(last));
        Seq::lemma_filter_push(front, last, |m: MidiMessage| m.offset == time);
        assert(due_at(a, time) == due_at(front, time).push(last));
        assert(due_at(a, time) == due_at(b, time));
        assert(b.len() > 0) by {
            if b.len() == 0 {
                lemma_none_due(b, time);
            }
        }
        let other = b.last();
        let other_time = other.offset as int;
        let other_front = b.drop_last();
        assert(b == other_front.push(other));
        Seq::lemma_filter_push(other_front, other, |m: MidiMessage| m.offset == other_time);
        assert(due_at(b, other_time) == due_at(other_front, other_time).push(other));
        assert(due_at(a, other_time) == due_at(b, other_time));
        // each of the two last messages is due somewhere in the other
        // sequence, so neither is due later than the other
        let k = lemma_due_is_held(a, other_time);
        assert(a[k].offset <= a[a.len() - 1].offset);
        let j = lemma_due_is_held(b, time);
        assert(b[j].offset <= b[b.len() - 1].offset);
        assert(time == other_time);
        assert(due_at(a, time).last() == last);
        assert(due_at(b, time).last() == other);
        assert(last == other);
        assert forall|i: int, j: int| 0 <= i <= j < front.len() implies (
        #[trigger] front[i]).offset <= (#[trigger] front[j]).offset by {
            assert(a[i].offset <= a[j].offset);
        }
        assert forall|i: int, j: int| 0 <= i <= j < other_front.len() implies (
        #[trigger] other_front[i]).offset <= (#[trigger] other_front[j]).offset by {
            assert(b[i].offset <= b[j].offset);
        }
        assert forall|t: int| #[trigger] due_at(front, t) == due_at(other_front, t) by {
            Seq::lemma_filter_push(front, last, |m: MidiMessage| m.offset == t);
            Seq::lemma_filter_push(other_front, other, |m: MidiMessage| m.offset == t);
            assert(due_at(a, t) == due_at(b, t));
            if t == time {
                assert(due_at(front, t) =~= due_at(a, t).drop_last());
                assert(due_at(other_front, t) =~= due_at(b, t).drop_last());
            }
        }
        lemma_time_order_unique(front, other_front);
    }
}

/// Merges two sequences that are in order of time into one. Of messages due
/// at the same time those of `left` come first, and each side keeps its
/// order.
fn merge(left: &Vec<MidiMessage>, right: &Vec<MidiMessage>) -> (merged: Vec<MidiMessage>)
    requires
        in_time_order(left@),
        in_time_order(right@),
    ensures
        in_time_order(merged@),
        forall|time: int| #[trigger]
            due_at(merged@, time) == due_at(left@, time) + due_at(right@, time),
{
    let mut merged: Vec<MidiMessage> = Vec::new();
    let left_count: usize = left.len();
    let right_count: usize = right.len();
    let mut i: usize = 0;
    let mut j: usize = 0;
    proof {
        assert forall|time: int| #[trigger]
            due_at(merged@, time) == due_at(left@.take(0), time) + due_at(
                right@.take(0),
                time,
            ) by {
            lemma_none_due(merged@, time);
            lemma_none_due(left@.take(0), time);
            lemma_none_due(right@.take(0), time);
        }
    }
    while i < left_count || j < right_count
        invariant
            left_count == left@.len(),
            right_count == right@.len(),
            i <= left_count,
            j <= right_count,
            in_time_order(left@),
            in_time_order(right@),
            in_time_order(merged@),
            forall|time: int| #[trigger]
                due_at(merged@, time) == due_at(left@.take(i as int), time) + due_at(
                    right@.take(j as int),
                    time,
                ),
            forall|k: int|
                0 <= k < merged@.len() && i < left_count ==> (#[trigger] merged@[k]).offset
                    <= left@[i as int].offset,
            forall|k: int|
                0 <= k < merged@.len() && j < right_count ==> (#[trigger] merged@[k]).offset
                    <= right@[j as int].offset,
            forall|k: int|
                0 <= k < j && i < left_count ==> (#[trigger] right@[k]).offset
                    < left@[i as int].offset,
        decreases left_count - i + right_count - j,
    {
        let ghost before = merged@;
        let from_left: bool = j >= right_count || (i < left_count && left[i].offset
            <= right[j].offset);
        if from_left {
            let message = left[i];
            merged.push(message);
            proof {
                assert(left@.take(i + 1) == left@.take(i as int).push(message));
                assert forall|time: int| #[trigger]
                    due_at(merged@, time) == due_at(left@.take(i + 1), time) + due_at(
                        right@.take(j as int),
                        time,
                    ) by {
                    let pred = |m: MidiMessage| m.offset == time;
                    Seq::lemma_filter_push(before, message, pred);
                    Seq::lemma_filter_push(left@.take(i as int), message, pred);
                    assert(due_at(before, time) == due_at(left@.take(i as int), time) + due_at(
                        right@.take(j as int),
                        time,
                    ));
                    if message.offset == time {
                        lemma_none_due(right@.take(j as int), time);
                        assert(due_at(merged@, time) =~= due_at(left@.take(i + 1), time) + due_at(
                            right@.take(j as int),
                            time,
                        ));
                    }
                }
                assert forall|a: int, b: int| 0 <= a <= b < merged@.len() implies (
                #[trigger] merged@[a]).offset <= (#[trigger] merged@[b]).offset by {
                    if b < before.len() {
                        assert(before[a].offset <= before[b].offset);
                    } else if a < before.len() {
                        assert(before[a].offset <= left@[i as int].offset);
                    }
                }
                assert forall|k: int|
                    0 <= k < merged@.len() && i + 1 < left_count implies (
                #[trigger] merged@[k]).offset <= left@[i + 1].offset by {
                    assert(left@[i as int].offset <= left@[i + 1].offset);
                    if k < before.len() {
                        assert(before[k].offset <= left@[i as int].offset);
                    }
                }
                assert forall|k: int| 0 <= k < merged@.len() && j < right_count implies (
                #[trigger] merged@[k]).offset <= right@[j as int].offset by {
                    if k < before.len() {
                        assert(before[k].offset <= right@[j as int].offset);
                    }
                }
                assert forall|k: int| 0 <= k < j && i + 1 < left_count implies (
                #[trigger] right@[k]).offset < left@[i + 1].offset by {
                    assert(left@[i as int].offset <= left@[i + 1].offset);
                }
            }
            i += 1;
        } else {
            let message = right[j];
            merged.push(message);
            proof {
                assert(right@.take(j + 1) == right@.take(j as int).push(message));
                assert forall|time: int| #[trigger]
                    due_at(merged@, time) == due_at(left@.take(i as int), time) + due_at(
                        right@.take(j + 1),
                        time,
                    ) by {
                    let pred = |m: MidiMessage| m.offset == time;
                    Seq::lemma_filter_push(before, message, pred);
                    Seq::lemma_filter_push(right@.take(j as int), message, pred);
                    assert(due_at(before, time) == due_at(left@.take(i as int), time) + due_at(
                        right@.take(j as int),
                        time,
                    ));
                    if message.offset == time {
                        assert(due_at(merged@, time) =~= due_at(left@.take(i as int), time)
                            + due_at(right@.take(j + 1), time));
                    }
                }
                assert forall|a: int, b: int| 0 <= a <= b < merged@.len() implies (
                #[trigger] merged@[a]).offset <= (#[trigger] merged@[b]).offset by {
                    if b < before.len() {
                        assert(before[a].offset <= before[b].offset);
                    } else if a < before.len() {
                        assert(before[a].offset <= right@[j as int].offset);
                    }
                }
                assert forall|k: int| 0 <= k < merged@.len() && i < left_count implies (
                #[trigger] merged@[k]).offset <= left@[i as int].offset by {
                    if k < before.len() {
                        assert(before[k].offset <= left@[i as int].offset);
                    }
                }
                assert forall|k: int|
                    0 <= k < merged@.len() && j + 1 < right_count implies (
                #[trigger] merged@[k]).offset <= right@[j + 1].offset by {
                    assert(right@[j as int].offset <= right@[j + 1].offset);
                    if k < before.len() {
                        assert(before[k].offset <= right@[j as int].offset);
                    }
                }
            }
            j += 1;
        }
    }
    proof {
        assert(left@.take(left_count as int) == left@);
        assert(right@.take(right_count as int) == right@);
    }
    merged
}

/// The messages from index `from` up to index `to`, put in order of time.
fn sort_range(messages: &Vec<MidiMessage>, from: usize, to: usize) -> (sorted: Vec<MidiMessage>)
    requires
        from <= to <= messages@.len(),
    ensures
        sorted@ == time_ordered(messages@.subrange(from as int, to as int)),
    decreases to - from,
{
    let ghost range = messages@.subrange(from as int, to as int);
    if to - from <= 1 {
        let mut sorted: Vec<MidiMessage> = Vec::new();
        if from < to {
            sorted.push(messages[from]);
            assert(range.drop_last() =~= Seq::<MidiMessage>::empty());
            assert(time_ordered(range.drop_last()) =~= Seq::<MidiMessage>::empty());
        }
        assert(sorted@ =~= time_ordered(range));
        sorted
    } else {
        let middle: usize = from + (to - from) / 2;
        let left = sort_range(messages, from, middle);
        let right = sort_range(messages, middle, to);
        let ghost left_range = messages@.subrange(from as int, middle as int);
        let ghost right_range = messages@.subrange(middle as int, to as int);
        proof {
            lemma_time_ordered(left_range, 0);
            lemma_time_ordered(right_range, 0);
        }
        let sorted = merge(&left, &right);
        proof {
            assert(range =~= left_range + right_range);
            lemma_time_ordered(range, 0);
            assert forall|time: int| #[trigger]
                due_at(sorted@, time) == due_at(time_ordered(range), time) by {
                lemma_time_ordered(left_range, time);
                lemma_time_ordered(right_range, time);
                lemma_time_ordered(range, time);
                Seq::filter_distributes_over_add(
                    left_range,
                    right_range,
                    |m: MidiMessage| m.offset == time,
                );
                assert(due_at(sorted@, time) == due_at(left@, time) + due_at(right@, time));
            }
            lemma_time_order_unique(sorted@, time_ordered(range));
        }
        sorted
    }
}

/// Puts the messages in order of time. Messages due at the same time keep
/// the order in which they came.
pub fn sort_by_offset(messages: Vec<MidiMessage>) -> (sorted: Vec<MidiMessage>)
    ensures
        sorted@ == time_ordered(messages@),
        in_time_order(sorted@),
        sorted@.len() == messages@.len(),
        sorted@.to_multiset() == messages@.to_multiset(),
        forall|time: int| due_at(sorted@, time) == due_at(messages@, time),
{
    let sorted = sort_range(&messages, 0, messages.len());
    proof {
        assert(messages@.subrange(0, messages@.len() as int) =~= messages@);
        lemma_time_ordered(messages@, 0);
        assert forall|time: int| due_at(sorted@, time) == due_at(messages@, time) by {
            lemma_time_ordered(messages@, time);
        }
    }
    sorted
}

impl Project {
    /// The message stream of the project: for every note of every track the
    /// track's instrument and a note-on at the note's start and a note-off at
    /// its end, all in order of time. Messages due at the same time stay in
    /// the order of their tracks and notes.
    pub fn to_midi(&self) -> (messages: Vec<MidiMessage>)
        ensures
            messages@ == time_ordered(emitted_messages(self@.tracks)),
            in_time_order(messages@),
            messages@.len() == 3 * self@.note_count(),
            forall|time: int|
                due_at(messages@, time) == due_at(emitted_messages(self@.tracks), time),
    {
        let mut messages: Vec<MidiMessage> = Vec::new();
        let track_count: usize = self.tracks.len();
        let mut track_index: usize = 0;
        while track_index < track_count
            invariant
                track_count == self.tracks@.len(),
                track_index <= track_count,
                messages@ == emitted_messages(self@.tracks.take(track_index as int)),
            decreases track_count - track_index,
        {
            let track = &self.tracks[track_index];
            let note_count: usize = track.notes.len();
            let mut note_index: usize = 0;
            let ghost before = messages@;
            while note_index < note_count
                invariant
                    note_count == track.notes@.len(),
                    note_index <= note_count,
                    messages@ == before + track_messages(
                        track.instrument,
                        track.notes@.take(note_index as int),
                    ),
                decreases note_count - note_index,
            {
                let note = &track.notes[note_index];
                proof {
                    assert(track.notes@.take(note_index + 1).drop_last() == track.notes@.take(
                        note_index as int,
                    ));
                }
                messages.push(
                    MidiMessage {
                        offset: note.offset as i64,
                        type_: MidiMessageType::ChangeInstrument(track.instrument),
                    },
                );
                messages.push(
                    MidiMessage {
                        offset: note.offset as i64,
                        type_: MidiMessageType::NoteOn(note.pitch, FULL_VELOCITY),
                    },
                );
                messages.push(
                    MidiMessage {
                        offset: note.end(),
                        type_: MidiMessageType::NoteOff(note.pitch, FULL_VELOCITY),
                    },
                );
                note_index += 1;
            }
            proof {
                assert(track.notes@.take(note_count as int) == track.notes@);
                assert(self@.tracks.take(track_index + 1).drop_last() == self@.tracks.take(
                    track_index as int,
                ));
                assert(self@.tracks.take(track_index + 1).last() == track@);
            }
            track_index += 1;
        }
        proof {
            assert(self@.tracks.take(track_count as int) == self@.tracks);
            lemma_emitted_len(self@.tracks);
        }
        sort_by_offset(messages)
    }
}

/// Time division of the exported file: ticks to the quarter note.
pub const TICKS_PER_QUARTER_NOTE: u16 = 1024;

/// Ticks of the exported file to the whole note at one beat per minute,
/// `480 * TICKS_PER_QUARTER_NOTE`.
pub const TICKS_AT_UNIT_TEMPO: u32 = 491_520;

/// The most notes that a project may hold for export. Each note takes at
/// most 24 bytes of the track chunk, whose length field has 32 bits.
pub const MAX_EXPORT_NOTES: u64 = 178_956_970;

/// Ticks to the whole note at the tempo `bpm`: `TICKS_AT_UNIT_TEMPO / bpm`
/// rounded to the nearest whole number, halves upwards. A tempo of zero
/// gives the largest multiplier there is.
pub open spec fn spec_delta_multiplier(bpm: u32) -> nat {
    if bpm == 0 {
        u32::MAX as nat
    } else {
        ((TICKS_AT_UNIT_TEMPO + bpm / 2) / (bpm as int)) as nat
    }
}

/// `(n + d / 2) / d` is `n / d` rounded to the nearest whole number, halves
/// upwards: it lies no further than a half from `n / d`, and a half above it
/// only.
pub proof fn lemma_rounded_division(n: int, d: int)
    requires
        d > 0,
    ensures
        -d <= 2 * (n - ((n + d / 2) / d) * d) < d,
{
    let q = (n + d / 2) / d;
    let r = (n + d / 2) % d;
    vstd::arithmetic::div_mod::lemma_fundamental_div_mod(n + d / 2, d);
    assert(q * d == d * q) by (nonlinear_arith);
}

/// Ticks between two messages `gap` units of musical time apart:
/// `gap / WHOLE_NOTE * multiplier` rounded to the nearest whole number,
/// halves upwards, and held within what 32 bits can count. A gap below zero
/// counts as none.
pub open spec fn spec_delta_ticks(gap: int, multiplier: nat) -> nat {
    if gap <= 0 {
        0
    } else {
        let ticks = (gap * multiplier + WHOLE_NOTE / 2) / (WHOLE_NOTE as int);
        if ticks > u32::MAX {
            u32::MAX as nat
        } else {
            ticks as nat
        }
    }
}

/// The time of the message before message `index`, or zero for the first.
pub open spec fn time_before(messages: Seq<MidiMessage>, index: int) -> int {
    if index == 0 {
        0
    } else {
        messages[index - 1].offset as int
    }
}

/// Message `index` as it stands in a track chunk: the ticks since the
/// message before it as a variable-length quantity, then the message.
pub open spec fn event_bytes(messages: Seq<MidiMessage>, index: int, multiplier: nat) -> Seq<u8> {
    varlen(spec_delta_ticks(messages[index].offset - time_before(messages, index), multiplier))
        + messages[index].type_.bytes()
}

/// The first `count` messages as they stand in a track chunk.
pub open spec fn events_bytes(messages: Seq<MidiMessage>, count: nat, multiplier: nat) -> Seq<u8>
    decreases count,
{
    if count == 0 {
        Seq::empty()
    } else {
        events_bytes(messages, (count - 1) as nat, multiplier) + event_bytes(
            messages,
            count - 1,
            multiplier,
        )
    }
}

/// The four bytes of `n`, the most significant first.
pub open spec fn big_endian_u32(n: u32) -> Seq<u8> {
    seq![
        (n / 0x100_0000) as u8,
        (n / 0x1_0000 % 0x100) as u8,
        (n / 0x100 % 0x100) as u8,
        (n % 0x100) as u8,
    ]
}

/// The two bytes of `n`, the most significant first.
pub open spec fn big_endian_u16(n: u16) -> Seq<u8> {
    seq![(n / 0x100) as u8, (n % 0x100) as u8]
}

/// The header chunk of a file of format 0 with one track: the tag `MThd`,
/// the length 6, the format, the number of tracks and the time division.
pub open spec fn header_chunk() -> Seq<u8> {
    seq![0x4Du8, 0x54u8, 0x68u8, 0x64u8] + big_endian_u32(6) + big_endian_u16(0) + big_endian_u16(
        1,
    ) + big_endian_u16(TICKS_PER_QUARTER_NOTE)
}

/// The meta event that ends a track, with its delta time of zero.
pub open spec fn end_of_track() -> Seq<u8> {
    seq![0x00u8, 0xFFu8, 0x2Fu8, 0x00u8]
}

/// The track chunk around `events`: the tag `MTrk`, the number of bytes that
/// follow, the events, and the end of the track.
pub open spec fn track_chunk(events: Seq<u8>) -> Seq<u8> {
    seq![0x4Du8, 0x54u8, 0x72u8, 0x6Bu8] + big_endian_u32((events.len() + 4) as u32) + events
        + end_of_track()
}

/// The project as a Standard MIDI File.
pub open spec fn midi_file(project: ProjectView) -> Seq<u8> {
    let messages = time_ordered(emitted_messages(project.tracks));
    header_chunk() + track_chunk(
        events_bytes(messages, messages.len(), spec_delta_multiplier(project.bpm)),
    )
}

/// Export is a function of what the project holds: two projects that hold
/// the same export to the same bytes, and so does one project every time.
pub proof fn lemma_export_deterministic(a: Project, b: Project)
    requires
        a@ == b@,
    ensures
        midi_file(a@) == midi_file(b@),
{
}

/// A track chunk holds at most eight bytes for each message.
pub proof fn lemma_events_bytes_len(messages: Seq<MidiMessage>, count: nat, multiplier: nat)
    requires
        count <= messages.len(),
    ensures
        events_bytes(messages, count, multiplier).len() <= 8 * count,
    decreases count,
{
    if count > 0 {
        lemma_events_bytes_len(messages, (count - 1) as nat, multiplier);
        let gap = messages[count - 1].offset - time_before(messages, count - 1);
        lemma_varlen_round_trip(spec_delta_ticks(gap, multiplier));
    }
}

/// Ticks to the whole note at the tempo `bpm`: `TICKS_AT_UNIT_TEMPO / bpm`
/// rounded to the nearest whole number.
pub fn delta_multiplier(bpm: u32) -> (r: u32)
    ensures
        r == spec_delta_multiplier(bpm),
        bpm > 0 ==> (-bpm <= 2 * (TICKS_AT_UNIT_TEMPO - r * bpm) < bpm),
{
    if bpm == 0 {
        u32::MAX
    } else {
        let sum: u64 = TICKS_AT_UNIT_TEMPO as u64 + bpm as u64 / 2;
        proof {
            vstd::arithmetic::div_mod::lemma_div_is_ordered_by_denominator(
                sum as int,
                1,
                bpm as int,
            );
            lemma_rounded_division(TICKS_AT_UNIT_TEMPO as int, bpm as int);
        }
        (sum / (bpm as u64)) as u32
    }
}

/// Ticks between two messages `gap` units of musical time apart: the gap in
/// whole notes times `multiplier`, rounded to the nearest whole number and
/// held within what 32 bits can count.
pub fn delta_ticks(gap: i128, multiplier: u32) -> (r: u32)
    ensures
        r == spec_delta_ticks(gap as int, multiplier as nat),
        0 < gap && r < u32::MAX ==> (-WHOLE_NOTE <= 2 * (gap * multiplier - r * WHOLE_NOTE)
            < WHOLE_NOTE),
{
    if gap <= 0 {
        0
    } else if multiplier == 0 {
        0
    } else if gap >= 42_949_672_960_000 {
        assert(gap * multiplier + WHOLE_NOTE / 2 >= (u32::MAX + 1) * WHOLE_NOTE)
            by (nonlinear_arith)
            requires
                gap >= 42_949_672_960_000,
                multiplier >= 1,
        ;
        assert((gap * multiplier + WHOLE_NOTE / 2) / (WHOLE_NOTE as int) > u32::MAX) by {
            vstd::arithmetic::div_mod::lemma_div_is_ordered(
                (u32::MAX + 1) * WHOLE_NOTE,
                gap * multiplier + WHOLE_NOTE / 2,
                WHOLE_NOTE as int,
            );
            vstd::arithmetic::div_mod::lemma_div_by_multiple(u32::MAX + 1, WHOLE_NOTE as int);
        }
        u32::MAX
    } else {
        assert(0 <= gap * multiplier <= 42_949_672_960_000 * 0xffff_ffff) by (nonlinear_arith)
            requires
                0 < gap < 42_949_672_960_000,
                0 <= multiplier <= 0xffff_ffff,
        ;
        proof {
            lemma_rounded_division(gap * multiplier, WHOLE_NOTE as int);
        }
        let sum: u128 = (gap as u128) * (multiplier as u128) + (WHOLE_NOTE as u128) / 2;
        let ticks: u128 = sum / (WHOLE_NOTE as u128);
        if ticks > u32::MAX as u128 {
            u32::MAX
        } else {
            ticks as u32
        }
    }
}

/// The messages as they stand in a track chunk: before each of them the
/// ticks since the one before it, as a variable-length quantity.
pub fn encode_events(messages: &Vec<MidiMessage>, multiplier: u32) -> (bytes: Vec<u8>)
    ensures
        bytes@ == events_bytes(messages@, messages@.len(), multiplier as nat),
        bytes@.len() <= 8 * messages@.len(),
{
    let mut bytes: Vec<u8> = Vec::new();
    let mut last_offset: i64 = 0;
    let n: usize = messages.len();
    let mut index: usize = 0;
    while index < n
        invariant
            n == messages@.len(),
            index <= n,
            last_offset == time_before(messages@, index as int),
            bytes@ == events_bytes(messages@, index as nat, multiplier as nat),
        decreases n - index,
    {
        let message = messages[index];
        let gap: i128 = message.offset as i128 - last_offset as i128;
        last_offset = message.offset;
        let mut delta = to_varlen(delta_ticks(gap, multiplier));
        bytes.append(&mut delta);
        let mut event = message.type_.to_bytes();
        bytes.append(&mut event);
        index += 1;
    }
    proof {
        lemma_events_bytes_len(messages@, n as nat, multiplier as nat);
    }
    bytes
}

/// Appends the four bytes of `n`, the most significant first.
fn push_u32(bytes: &mut Vec<u8>, n: u32)
    ensures
        final(bytes)@ == old(bytes)@ + big_endian_u32(n),
{
    bytes.push((n / 0x100_0000) as u8);
    bytes.push((n / 0x1_0000 % 0x100) as u8);
    bytes.push((n / 0x100 % 0x100) as u8);
    bytes.push((n % 0x100) as u8);
    assert(bytes@ =~= old(bytes)@ + big_endian_u32(n));
}

/// Appends the two bytes of `n`, the most significant first.
fn push_u16(bytes: &mut Vec<u8>, n: u16)
    ensures
        final(bytes)@ == old(bytes)@ + big_endian_u16(n),
{
    bytes.push((n / 0x100) as u8);
    bytes.push((n % 0x100) as u8);
    assert(bytes@ =~= old(bytes)@ + big_endian_u16(n));
}

/// Writes the project as a Standard MIDI File of format 0: a header chunk
/// and one track chunk that holds the project's message stream, each
/// message behind the ticks since the one before it, and the end of the
/// track.
///
/// The tempo is written into the ticks, not into the file: a whole note
/// takes `delta_multiplier(bpm)` ticks, which at the tempo a player assumes
/// for a file that states none is as long as the project's own tempo makes
/// it. The project may hold no more than `MAX_EXPORT_NOTES` notes, so that
/// the length of the track chunk fits the field that states it.
pub fn export_midi(project: &Project) -> (bytes: Vec<u8>)
    requires
        project@.note_count() <= MAX_EXPORT_NOTES,
    ensures
        bytes@ == midi_file(project@),
{
    let messages = project.to_midi();
    let mut bytes: Vec<u8> = Vec::new();
    bytes.push(0x4D);
    bytes.push(0x54);
    bytes.push(0x68);
    bytes.push(0x64);
    push_u32(&mut bytes, 6);
    push_u16(&mut bytes, 0);
    push_u16(&mut bytes, 1);
    push_u16(&mut bytes, TICKS_PER_QUARTER_NOTE);
    assert(bytes@ =~= header_chunk());
    bytes.push(0x4D);
    bytes.push(0x54);
    bytes.push(0x72);
    bytes.push(0x6B);
    let mut track_bytes = encode_events(&messages, delta_multiplier(project.bpm));
    let ghost events = track_bytes@;
    push_u32(&mut bytes, (track_bytes.len() + 4) as u32);
    track_bytes.push(0);
    track_bytes.push(0xFF);
    track_bytes.push(0x2F);
    track_bytes.push(0);
    assert(track_bytes@ =~= events + end_of_track());
    bytes.append(&mut track_bytes);
    assert(bytes@ =~= header_chunk() + track_chunk(events));
    bytes
}

} // verus!
