//! What the screen shows, as plain values for the host to draw.

use vstd::prelude::*;
use crate::model::{Model, ModelView};
use crate::project::{Note, TimeSignature, Track, TIME_UNIT_WIDTH};
use crate::util::{is_black_key, note_name, spec_is_black_key, spec_note_name, GRID_STEP_WIDTH};

verus! {

/// Width of the keyboard that stands left of the piano roll and of the
/// progress bar, in screen units.
pub const PIANO_KEYS_WIDTH: i64 = 50_000;

/// The number of a measure and where to write it along the progress bar.
#[derive(Clone, Copy, Debug, PartialEq, Eq, Structural)]
pub struct MeasureNumber {
    /// Horizontal position, in screen units from the left of the keyboard.
    pub x: i64,
    /// Number of the measure, the first being 1.
    pub number: u32,
}

/// The numbers of the measures that start within the first `steps` grid
/// steps, each at the position of its measure line.
pub open spec fn measure_numbers(signature: TimeSignature, steps: nat) -> Seq<MeasureNumber>
    decreases steps,
{
    if steps == 0 {
        Seq::empty()
    } else {
        let step = (steps - 1) as nat;
        let before = measure_numbers(signature, step);
        if signature.starts_measure(step) {
            before.push(
                MeasureNumber {
                    x: (step * GRID_STEP_WIDTH + PIANO_KEYS_WIDTH) as i64,
                    number: (before.len() + 1) as u32,
                },
            )
        } else {
            before
        }
    }
}

/// The number of grid steps that start within a piano roll of the width
/// `width`, both ends counted.
pub open spec fn steps_within(width: i32) -> nat {
    if width < 0 {
        0
    } else {
        (width / GRID_STEP_WIDTH + 1) as nat
    }
}

/// There is at most one measure number to a grid step.
pub proof fn lemma_measure_numbers_len(signature: TimeSignature, steps: nat)
    ensures
        measure_numbers(signature, steps).len() <= steps,
    decreases steps,
{
    if steps > 0 {
        lemma_measure_numbers_len(signature, (steps - 1) as nat);
    }
}

/// A key of the keyboard beside the piano roll.
#[derive(Clone, Debug, PartialEq, Eq)]
pub struct PianoKey {
    pub pitch: u8,
    pub name: String,
    /// Whether the key is a black one.
    pub black: bool,
}

/// A key as contracts see it.
pub struct PianoKeyView {
    pub pitch: u8,
    pub name: Seq<char>,
    pub black: bool,
}

impl View for PianoKey {
    type V = PianoKeyView;

    open spec fn view(&self) -> PianoKeyView {
        PianoKeyView { pitch: self.pitch, name: self.name@, black: self.black }
    }
}

/// The key for a pitch.
pub open spec fn piano_key(pitch: u8) -> PianoKeyView {
    PianoKeyView { pitch, name: spec_note_name(pitch), black: spec_is_black_key(pitch) }
}

/// The keys from the top of the keyboard down: pitch 127 first.
pub open spec fn piano_keys() -> Seq<PianoKeyView> {
    Seq::new(128, |row: int| piano_key((127 - row) as u8))
}

/// The rectangle of a note on the piano roll, in screen units.
#[derive(Clone, Copy, Debug, PartialEq, Eq, Structural)]
pub struct NoteRect {
    pub x: i64,
    pub y: i64,
    pub width: i64,
    pub height: i64,
}

/// The rectangle of `note`.
pub open spec fn note_rect(note: Note) -> NoteRect {
    NoteRect {
        x: note.spec_screen_x() as i64,
        y: note.spec_screen_y() as i64,
        width: note.spec_screen_width() as i64,
        height: crate::project::NOTE_RECT_HEIGHT,
    }
}

/// The instrument that the number typed into the instrument field stands
/// for. The field counts instruments from 1, the project from 0.
pub open spec fn spec_instrument_from_input(number: i64) -> Option<u8> {
    if 1 <= number <= 128 {
        Some((number - 1) as u8)
    } else {
        None
    }
}

/// The instrument that the number typed into the instrument field stands
/// for, if it names one of the 128 instruments.
pub fn instrument_from_input(number: i64) -> (r: Option<u8>)
    ensures
        r == spec_instrument_from_input(number),
{
    if 1 <= number && number <= 128 {
        Some((number - 1) as u8)
    } else {
        None
    }
}

/// The number that the instrument field shows for an instrument.
pub fn instrument_to_input(instrument: u8) -> (r: u16)
    ensures
        r == instrument + 1,
        instrument <= 127 ==> spec_instrument_from_input(r as i64) == Some(instrument),
{
    instrument as u16 + 1
}

/// The index of the first of `names` that is `wanted`.
pub open spec fn first_named(names: Seq<Option<Seq<char>>>, wanted: Seq<char>) -> Option<usize>
    decreases names.len(),
{
    if names.len() == 0 {
        None
    } else {
        match first_named(names.drop_last(), wanted) {
            Some(index) => Some(index),
            None => if names.last() == Some(wanted) {
                Some((names.len() - 1) as usize)
            } else {
                None
            },
        }
    }
}

/// `first_named` finds a name that is `wanted` and has none before it that
/// is, or says that no name is.
pub proof fn lemma_first_named(names: Seq<Option<Seq<char>>>, wanted: Seq<char>)
    requires
        names.len() <= usize::MAX,
    ensures
        match first_named(names, wanted) {
            Some(index) => {
                &&& index < names.len()
                &&& names[index as int] == Some(wanted)
                &&& forall|j: int| 0 <= j < index ==> names[j] != Some(wanted)
            },
            None => forall|j: int| 0 <= j < names.len() ==> names[j] != Some(wanted),
        },
    decreases names.len(),
{
    if names.len() > 0 {
        let front = names.drop_last();
        lemma_first_named(front, wanted);
        assert forall|j: int| 0 <= j < front.len() implies front[j] == names[j] by {}
    }
}

/// Picks an output device by name: the index of the first device of the
/// list whose name is `wanted`. Devices without a name are passed over.
pub fn find_output(names: &Vec<Option<String>>, wanted: &String) -> (r: Option<usize>)
    ensures
        r == first_named(
            names@.map_values(
                |n: Option<String>|
                    match n {
                        Some(name) => Some(name@),
                        None => None,
                    },
            ),
            wanted@,
        ),
{
    let ghost views = names@.map_values(
        |n: Option<String>|
            match n {
                Some(name) => Some(name@),
                None => None,
            },
    );
    let n: usize = names.len();
    let mut index: usize = 0;
    while index < n
        invariant
            n == names@.len(),
            index <= n,
            views == names@.map_values(
                |n: Option<String>|
                    match n {
                        Some(name) => Some(name@),
                        None => None,
                    },
            ),
            first_named(views.take(index as int), wanted@) is None,
        decreases n - index,
    {
        let found: bool = match &names[index] {
            Some(name) => *name == *wanted,
            None => false,
        };
        if found {
            proof {
                lemma_first_named_prefix(views, index as int, wanted@);
            }
            return Some(index);
        }
        proof {
            assert(views.take(index + 1).drop_last() == views.take(index as int));
        }
        index += 1;
    }
    proof {
        assert(views.take(n as int) == views);
    }
    None
}

/// Once a prefix of `names` holds no name that is `wanted` and the next one
/// is, that one is the first.
proof fn lemma_first_named_prefix(names: Seq<Option<Seq<char>>>, k: int, wanted: Seq<char>)
    requires
        0 <= k < names.len() <= usize::MAX,
        first_named(names.take(k), wanted) is None,
        names[k] == Some(wanted),
    ensures
        first_named(names, wanted) == Some(k as usize),
    decreases names.len(),
{
    if k == names.len() - 1 {
        assert(names.drop_last() == names.take(k));
    } else {
        assert(names.drop_last().take(k) == names.take(k));
        lemma_first_named_prefix(names.drop_last(), k, wanted);
    }
}

impl ModelView {
    /// The position of the progress line, in screen units from the left of
    /// the piano roll.
    pub open spec fn progress_line_x(self) -> int {
        (self.play_offset + self.play_progress) * TIME_UNIT_WIDTH
    }

    /// The rectangles of the notes of the selected track, or none if no
    /// track is selected.
    pub open spec fn note_rects(self) -> Seq<NoteRect> {
        match self.selected_track_index {
            None => Seq::empty(),
            Some(index) => self.project.tracks[index as int].notes.map_values(
                |n: Note| note_rect(n),
            ),
        }
    }
}

impl Model {
    /// Does `action` with the selected track and hands back what it gave, or
    /// nothing if no track is selected. A selection must name a track of the
    /// project.
    pub fn act_on_selected_track<R, F: Fn(&Track) -> R>(&self, action: F) -> (r: Option<R>)
        requires
            self@.selection_ok(),
            self.selected_track_index matches Some(index) ==> action.requires(
                (&self.project.tracks[index as int],),
            ),
        ensures
            self.selected_track_index is None ==> r is None,
            self.selected_track_index matches Some(index) ==> r is Some && action.ensures(
                (&self.project.tracks[index as int],),
                r->0,
            ),
    {
        if let Some(index) = self.selected_track_index {
            assert(self@.project.tracks.len() == self.project.tracks.len());
            Some(action(&self.project.tracks[index]))
        } else {
            None
        }
    }

    /// The position of the progress line, in screen units from the left of
    /// the piano roll: where playback stands.
    pub fn progress_line_x(&self) -> (r: i64)
        ensures
            r == self@.progress_line_x(),
    {
        (self.play_offset as i64 + self.play_progress as i64) * TIME_UNIT_WIDTH
    }

    /// The numbers of the measures to write along the progress bar of a
    /// piano roll of the width `width`: one at every grid step that falls on
    /// a measure line, counted from 1.
    pub fn view_measure_numbers(&self, width: i32) -> (r: Vec<MeasureNumber>)
        ensures
            r@ == measure_numbers(self.project.time_signature, steps_within(width)),
    {
        let signature = self.project.time_signature;
        let mut numbers: Vec<MeasureNumber> = Vec::new();
        if width < 0 {
            return numbers;
        }
        let steps: u32 = (width / GRID_STEP_WIDTH) as u32 + 1;
        let mut step: u32 = 0;
        while step < steps
            invariant
                step <= steps,
                steps <= 0x8000_0000,
                signature == self.project.time_signature,
                numbers@ == measure_numbers(signature, step as nat),
            decreases steps - step,
        {
            proof {
                lemma_measure_numbers_len(signature, step as nat);
            }
            if signature.is_measure_start(step) {
                assert(0 <= step * GRID_STEP_WIDTH <= 0x8000_0000 * 20_000) by (nonlinear_arith)
                    requires
                        0 <= step <= 0x8000_0000,
                        GRID_STEP_WIDTH == 20_000,
                ;
                let number: u32 = numbers.len() as u32 + 1;
                numbers.push(
                    MeasureNumber {
                        x: step as i64 * GRID_STEP_WIDTH as i64 + PIANO_KEYS_WIDTH,
                        number,
                    },
                );
            }
            step += 1;
        }
        numbers
    }

    /// The keys of the keyboard beside the piano roll, from the top down.
    pub fn view_piano_keys(&self) -> (r: Vec<PianoKey>)
        ensures
            r@.map_values(|k: PianoKey| k@) == piano_keys(),
    {
        let mut keys: Vec<PianoKey> = Vec::new();
        let mut row: u8 = 0;
        while row < 128
            invariant
                row <= 128,
                keys@.len() == row,
                keys@.map_values(|k: PianoKey| k@) == piano_keys().take(row as int),
            decreases 128 - row,
        {
            let pitch: u8 = 127 - row;
            let ghost before = keys@;
            keys.push(PianoKey { pitch, name: note_name(pitch), black: is_black_key(pitch) });
            proof {
                let was = before.map_values(|k: PianoKey| k@);
                let now = keys@.map_values(|k: PianoKey| k@);
                let goal = piano_keys().take(row + 1);
                assert forall|i: int| 0 <= i < now.len() implies #[trigger] now[i] == goal[i] by {
                    if i < row {
                        assert(keys@[i] == before[i]);
                        assert(now[i] == was[i]);
                    }
                }
                assert(now =~= goal);
            }
            row += 1;
        }
        assert(piano_keys().take(128) =~= piano_keys());
        keys
    }

    /// The rectangles of the notes of the selected track, in the order of
    /// the notes, or none if no track is selected. A selection must name a
    /// track of the project.
    pub fn view_notes(&self) -> (r: Vec<NoteRect>)
        requires
            self@.selection_ok(),
        ensures
            r@ == self@.note_rects(),
    {
        let mut rects: Vec<NoteRect> = Vec::new();
        if let Some(track_index) = self.selected_track_index {
            assert(self@.project.tracks.len() == self.project.tracks.len());
            let track = &self.project.tracks[track_index];
            let n: usize = track.notes.len();
            let mut index: usize = 0;
            while index < n
                invariant
                    n == track.notes@.len(),
                    index <= n,
                    rects@ == track.notes@.take(index as int).map_values(|n: Note| note_rect(n)),
                decreases n - index,
            {
                let note = &track.notes[index];
                rects.push(
                    NoteRect {
                        x: note.screen_x(),
                        y: note.screen_y(),
                        width: note.screen_width(),
                        height: note.screen_height(),
                    },
                );
                assert(rects@ =~= track.notes@.take(index + 1).map_values(
                    |n: Note| note_rect(n),
                ));
                index += 1;
            }
            assert(track.notes@.take(n as int) =~= track.notes@);
        }
        rects
    }
}

} // verus!
