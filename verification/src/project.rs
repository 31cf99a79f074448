//! The project data model and the geometry of a note on the piano roll.

use vstd::prelude::*;

verus! {

/// Length of a whole note, in units of musical time.
pub const WHOLE_NOTE: i32 = 10_000;

/// Number of grid steps in a whole note.
pub const MIN_DIVISION: u32 = 16;

/// Length of one grid step, a sixteenth note, in units of musical time.
pub const MIN_INTERVAL: i32 = 625;

/// A note is never given a length this short or shorter: one that an edit
/// or a drag would leave at or below it gets the length of one grid step.
pub const LENGTH_FLOOR: i32 = 1;

/// Width of a whole note on the piano roll, in screen units.
pub const WHOLE_NOTE_WIDTH: i64 = 320_000;

/// Height of one pitch row of the piano roll, in screen units.
pub const NOTE_RECT_HEIGHT: i64 = 30_000;

/// Width of the resize handle at either end of a note, in screen units.
pub const NOTE_EDGE_WIDTH: i64 = 6_000;

/// Screen units covered by one unit of musical time.
pub const TIME_UNIT_WIDTH: i64 = 32;

/// Highest MIDI pitch, drawn in the top row of the piano roll.
pub const TOP_PITCH: u8 = 127;

/// A note of a track.
#[derive(Clone, Copy, Debug, PartialEq, Eq, Structural)]
pub struct Note {
    /// MIDI note number.
    pub pitch: u8,
    pub velocity: u8,
    /// Start of the note, in units of musical time.
    pub offset: i32,
    /// Duration of the note, in units of musical time.
    pub length: i32,
}

impl Note {
    /// What the data model asks of a note: pitch and velocity are MIDI data
    /// bytes, the note does not start before time zero and it lasts.
    pub open spec fn wf(&self) -> bool {
        &&& self.pitch <= 127
        &&& self.velocity <= 127
        &&& self.offset >= 0
        &&& self.length > 0
    }

    /// The note with a length at or below the floor replaced by one grid
    /// step.
    pub open spec fn floored(self) -> Note {
        if self.length <= LENGTH_FLOOR {
            Note { length: MIN_INTERVAL, ..self }
        } else {
            self
        }
    }

    /// End of the note, in units of musical time.
    pub open spec fn spec_end(&self) -> int {
        self.offset + self.length
    }

    pub open spec fn spec_screen_x(&self) -> int {
        self.offset * TIME_UNIT_WIDTH
    }

    pub open spec fn spec_screen_y(&self) -> int {
        (TOP_PITCH - self.pitch) * NOTE_RECT_HEIGHT
    }

    pub open spec fn spec_screen_width(&self) -> int {
        self.length * TIME_UNIT_WIDTH
    }

    pub open spec fn spec_right_edge(&self) -> int {
        self.spec_screen_x() + self.spec_screen_width()
    }

    pub open spec fn spec_bottom_edge(&self) -> int {
        self.spec_screen_y() + NOTE_RECT_HEIGHT
    }

    /// Whether the point lies on the note's rectangle, borders included.
    pub open spec fn covers(&self, x: int, y: int) -> bool {
        &&& self.spec_screen_x() <= x <= self.spec_right_edge()
        &&& self.spec_screen_y() <= y <= self.spec_bottom_edge()
    }

    /// End of the note, in units of musical time.
    pub fn end(&self) -> (r: i64)
        ensures
            r == self.spec_end(),
    {
        self.offset as i64 + self.length as i64
    }

    /// Left border of the note's rectangle.
    pub fn screen_x(&self) -> (r: i64)
        ensures
            r == self.spec_screen_x(),
    {
        self.offset as i64 * TIME_UNIT_WIDTH
    }

    /// Top border of the note's rectangle. Pitch 127 is the top row.
    pub fn screen_y(&self) -> (r: i64)
        ensures
            r == self.spec_screen_y(),
    {
        (TOP_PITCH as i64 - self.pitch as i64) * NOTE_RECT_HEIGHT
    }

    /// Width of the note's rectangle.
    pub fn screen_width(&self) -> (r: i64)
        ensures
            r == self.spec_screen_width(),
    {
        self.length as i64 * TIME_UNIT_WIDTH
    }

    /// Height of the note's rectangle: one pitch row.
    pub fn screen_height(&self) -> (r: i64)
        ensures
            r == NOTE_RECT_HEIGHT,
    {
        NOTE_RECT_HEIGHT
    }

    /// Right border of the note's rectangle.
    pub fn right_edge(&self) -> (r: i64)
        ensures
            r == self.spec_right_edge(),
    {
        self.screen_x() + self.screen_width()
    }

    /// Bottom border of the note's rectangle.
    pub fn bottom_edge(&self) -> (r: i64)
        ensures
            r == self.spec_bottom_edge(),
    {
        self.screen_y() + self.screen_height()
    }
}

/// A track: a named instrument and its notes, in the order they were added.
///
/// A note is known by its position in `notes`, so removing one renumbers
/// every note behind it.
#[derive(Clone, Debug, PartialEq, Eq)]
pub struct Track {
    pub name: String,
    pub notes: Vec<Note>,
    /// General MIDI program number.
    pub instrument: u8,
}

/// A track as contracts see it.
pub struct TrackView {
    pub name: Seq<char>,
    pub notes: Seq<Note>,
    pub instrument: u8,
}

impl View for Track {
    type V = TrackView;

    open spec fn view(&self) -> TrackView {
        TrackView { name: self.name@, notes: self.notes@, instrument: self.instrument }
    }
}

impl TrackView {
    /// The instrument is a MIDI program number and every note is well formed.
    pub open spec fn wf(&self) -> bool {
        &&& self.instrument <= 127
        &&& forall|i: int| 0 <= i < self.notes.len() ==> (#[trigger] self.notes[i]).wf()
    }

    /// End of the note that ends last, or zero for a track without notes.
    pub open spec fn length(&self) -> int {
        latest_end(self.notes)
    }
}

/// The greatest end among `notes`, or zero if there is none above zero.
pub open spec fn latest_end(notes: Seq<Note>) -> int
    decreases notes.len(),
{
    if notes.len() == 0 {
        0
    } else {
        let rest = latest_end(notes.drop_last());
        if notes.last().spec_end() > rest {
            notes.last().spec_end()
        } else {
            rest
        }
    }
}

/// The topmost note under a point: the last of `notes` whose rectangle
/// covers it. Later notes are drawn over earlier ones.
pub open spec fn note_at(notes: Seq<Note>, x: int, y: int) -> Option<usize>
    decreases notes.len(),
{
    if notes.len() == 0 {
        None
    } else if notes.last().covers(x, y) {
        Some((notes.len() - 1) as usize)
    } else {
        note_at(notes.drop_last(), x, y)
    }
}

/// The first of `notes` whose rectangle covers a point.
pub open spec fn first_note_at(notes: Seq<Note>, x: int, y: int) -> Option<usize>
    decreases notes.len(),
{
    if notes.len() == 0 {
        None
    } else {
        match first_note_at(notes.drop_last(), x, y) {
            Some(i) => Some(i),
            None => if notes.last().covers(x, y) {
                Some((notes.len() - 1) as usize)
            } else {
                None
            },
        }
    }
}

/// `note_at` finds a note that covers the point and lies above every other
/// one that does, or says that no note covers it.
pub proof fn lemma_note_at(notes: Seq<Note>, x: int, y: int)
    requires
        notes.len() <= usize::MAX,
    ensures
        match note_at(notes, x, y) {
            Some(i) => {
                &&& i < notes.len()
                &&& notes[i as int].covers(x, y)
                &&& forall|j: int| i < j < notes.len() ==> !(#[trigger] notes[j]).covers(x, y)
            },
            None => forall|j: int| 0 <= j < notes.len() ==> !(#[trigger] notes[j]).covers(x, y),
        },
    decreases notes.len(),
{
    if notes.len() > 0 && !notes.last().covers(x, y) {
        let front = notes.drop_last();
        lemma_note_at(front, x, y);
        assert forall|j: int| 0 <= j < front.len() implies front[j] == notes[j] by {}
        match note_at(front, x, y) {
            Some(i) => {
                assert forall|j: int| i < j < notes.len() implies !(#[trigger] notes[j]).covers(
                    x,
                    y,
                ) by {
                    if j < front.len() {
                        assert(!front[j].covers(x, y));
                    }
                }
            },
            None => {
                assert forall|j: int| 0 <= j < notes.len() implies !(#[trigger] notes[j]).covers(
                    x,
                    y,
                ) by {
                    if j < front.len() {
                        assert(!front[j].covers(x, y));
                    }
                }
            },
        }
    }
}

/// `first_note_at` finds a note that covers the point and lies below every
/// other one that does, or says that no note covers it.
pub proof fn lemma_first_note_at(notes: Seq<Note>, x: int, y: int)
    requires
        notes.len() <= usize::MAX,
    ensures
        match first_note_at(notes, x, y) {
            Some(i) => {
                &&& i < notes.len()
                &&& notes[i as int].covers(x, y)
                &&& forall|j: int| 0 <= j < i ==> !(#[trigger] notes[j]).covers(x, y)
            },
            None => forall|j: int| 0 <= j < notes.len() ==> !(#[trigger] notes[j]).covers(x, y),
        },
    decreases notes.len(),
{
    if notes.len() > 0 {
        let front = notes.drop_last();
        lemma_first_note_at(front, x, y);
        match first_note_at(front, x, y) {
            Some(i) => {
                assert(front[i as int] == notes[i as int]);
                assert forall|j: int| 0 <= j < i implies !(#[trigger] notes[j]).covers(x, y) by {
                    assert(!front[j].covers(x, y));
                }
            },
            None => {
                assert forall|j: int| 0 <= j < front.len() implies !(#[trigger] notes[j]).covers(
                    x,
                    y,
                ) by {
                    assert(!front[j].covers(x, y));
                }
            },
        }
    }
}

impl Track {
    /// The topmost note under the point `(x, y)` of the piano roll, if any:
    /// the last note of the track whose rectangle, borders included, covers
    /// the point.
    pub fn get_note_at_position(&self, x: i32, y: i32) -> (r: Option<usize>)
        ensures
            r == note_at(self.notes@, x as int, y as int),
            match r {
                Some(i) => {
                    &&& i < self.notes@.len()
                    &&& self.notes@[i as int].covers(x as int, y as int)
                    &&& forall|j: int|
                        i < j < self.notes@.len() ==> !(#[trigger] self.notes@[j]).covers(
                            x as int,
                            y as int,
                        )
                },
                None => forall|j: int|
                    0 <= j < self.notes@.len() ==> !(#[trigger] self.notes@[j]).covers(
                        x as int,
                        y as int,
                    ),
            },
    {
        let mut result: Option<usize> = None;
        let n: usize = self.notes.len();
        let mut index: usize = 0;
        while index < n
            invariant
                n == self.notes@.len(),
                index <= n,
                result == note_at(self.notes@.take(index as int), x as int, y as int),
            decreases n - index,
        {
            let note = &self.notes[index];
            let px: i64 = x as i64;
            let py: i64 = y as i64;
            proof {
                assert(self.notes@.take(index + 1).drop_last() == self.notes@.take(index as int));
            }
            if note.screen_x() <= px && px <= note.right_edge() && note.screen_y() <= py && py
                <= note.bottom_edge() {
                result = Some(index);
            }
            index += 1;
        }
        proof {
            assert(self.notes@.take(n as int) == self.notes@);
            lemma_note_at(self.notes@, x as int, y as int);
        }
        result
    }

    /// The first note of the track whose rectangle covers the point `(x, y)`.
    pub fn first_note_at_position(&self, x: i32, y: i32) -> (r: Option<usize>)
        ensures
            r == first_note_at(self.notes@, x as int, y as int),
    {
        let n: usize = self.notes.len();
        let mut index: usize = 0;
        while index < n
            invariant
                n == self.notes@.len(),
                index <= n,
                first_note_at(self.notes@.take(index as int), x as int, y as int) is None,
            decreases n - index,
        {
            let note = &self.notes[index];
            let px: i64 = x as i64;
            let py: i64 = y as i64;
            if note.screen_x() <= px && px <= note.right_edge() && note.screen_y() <= py && py
                <= note.bottom_edge() {
                proof {
                    lemma_first_note_at_prefix(self.notes@, index as int, x as int, y as int);
                }
                return Some(index);
            }
            proof {
                assert(self.notes@.take(index + 1).drop_last() == self.notes@.take(index as int));
            }
            index += 1;
        }
        proof {
            assert(self.notes@.take(n as int) == self.notes@);
        }
        None
    }

    /// End of the note that ends last, or zero for a track without notes.
    pub fn length(&self) -> (r: i64)
        ensures
            r == self@.length(),
    {
        let mut longest: i64 = 0;
        let n: usize = self.notes.len();
        let mut index: usize = 0;
        while index < n
            invariant
                n == self.notes@.len(),
                index <= n,
                longest == latest_end(self.notes@.take(index as int)),
            decreases n - index,
        {
            proof {
                assert(self.notes@.take(index + 1).drop_last() == self.notes@.take(index as int));
            }
            let end: i64 = self.notes[index].end();
            if end > longest {
                longest = end;
            }
            index += 1;
        }
        proof {
            assert(self.notes@.take(n as int) == self.notes@);
        }
        longest
    }
}

/// Once a prefix of `notes` holds no note under the point and the next note
/// covers it, that note is the first one under the point.
proof fn lemma_first_note_at_prefix(notes: Seq<Note>, k: int, x: int, y: int)
    requires
        0 <= k < notes.len() <= usize::MAX,
        first_note_at(notes.take(k), x, y) is None,
        notes[k].covers(x, y),
    ensures
        first_note_at(notes, x, y) == Some(k as usize),
    decreases notes.len(),
{
    if k == notes.len() - 1 {
        assert(notes.drop_last() == notes.take(k));
    } else {
        assert(notes.drop_last().take(k) == notes.take(k));
        lemma_first_note_at_prefix(notes.drop_last(), k, x, y);
    }
}

/// A time signature: `top` beats to the measure, each a `bottom`-th note.
///
/// It places the measure lines of the piano roll and has no part in the
/// timing of notes.
#[derive(Clone, Copy, Debug, PartialEq, Eq, Structural)]
pub struct TimeSignature {
    pub top: u32,
    pub bottom: u32,
}

/// Whether `n` is one of 1, 2, 4, 8, ...
pub open spec fn is_power_of_two(n: nat) -> bool
    decreases n,
{
    n == 1 || (n >= 2 && n % 2 == 0 && is_power_of_two(n / 2))
}

impl TimeSignature {
    /// At least one beat to the measure, and a beat that is a whole note
    /// halved some number of times.
    pub open spec fn wf(&self) -> bool {
        self.top >= 1 && is_power_of_two(self.bottom as nat)
    }

    /// Whether the time signature is well formed.
    pub fn is_valid(&self) -> (r: bool)
        ensures
            r == self.wf(),
    {
        if self.top == 0 || self.bottom == 0 {
            return false;
        }
        let mut rest: u32 = self.bottom;
        while rest % 2 == 0
            invariant
                rest >= 1,
                is_power_of_two(rest as nat) == is_power_of_two(self.bottom as nat),
            decreases rest,
        {
            rest = rest / 2;
        }
        rest == 1
    }

    /// Length of a measure in units of musical time, rounded down.
    pub open spec fn spec_measure_length(&self) -> int {
        self.top * WHOLE_NOTE / (self.bottom as int)
    }

    /// Width of a measure in screen units, rounded down.
    pub open spec fn spec_measure_width(&self) -> int {
        self.top * WHOLE_NOTE_WIDTH / (self.bottom as int)
    }

    /// Length of a measure in units of musical time: `top` beats of
    /// `WHOLE_NOTE / bottom` each, rounded down to a whole unit. The beat
    /// must be a note value: `bottom` is not zero.
    pub fn measure_length(&self) -> (r: i64)
        requires
            self.bottom > 0,
        ensures
            r == self.spec_measure_length(),
    {
        self.top as i64 * (WHOLE_NOTE as i64) / (self.bottom as i64)
    }

    /// Width of a measure on the piano roll, rounded down to a whole screen
    /// unit. The beat must be a note value: `bottom` is not zero.
    pub fn measure_width(&self) -> (r: i64)
        requires
            self.bottom > 0,
        ensures
            r == self.spec_measure_width(),
    {
        self.top as i64 * WHOLE_NOTE_WIDTH / (self.bottom as i64)
    }

    /// Whether grid step number `step`, counted from zero at the start of the
    /// piece, falls on a measure line.
    ///
    /// Step `k` starts `k / MIN_DIVISION` whole notes into the piece and a
    /// measure is `top / bottom` whole notes long, so the step is on a line
    /// exactly if `k * bottom` is a multiple of `MIN_DIVISION * top`. A
    /// signature without beats has no measure lines, and one whose beat is no
    /// note value has its only line at the start.
    pub open spec fn starts_measure(&self, step: nat) -> bool {
        if self.top == 0 {
            false
        } else if self.bottom == 0 {
            step == 0
        } else {
            (step * self.bottom) % (MIN_DIVISION * self.top) == 0
        }
    }

    /// Whether grid step number `step` falls on a measure line.
    pub fn is_measure_start(&self, step: u32) -> (r: bool)
        ensures
            r == self.starts_measure(step as nat),
    {
        if self.top == 0 {
            false
        } else if self.bottom == 0 {
            step == 0
        } else {
            assert(step * self.bottom <= 0xffff_ffff * 0xffff_ffff) by (nonlinear_arith)
                requires
                    step <= 0xffff_ffff,
                    self.bottom <= 0xffff_ffff,
            ;
            let scaled: u64 = step as u64 * (self.bottom as u64);
            let measure: u64 = 16 * (self.top as u64);
            scaled % measure == 0
        }
    }
}

/// The whole piece: its name, meter, tempo and tracks.
///
/// A track is known by its position in `tracks`, so removing one renumbers
/// every track behind it.
#[derive(Clone, Debug, PartialEq, Eq)]
pub struct Project {
    pub name: String,
    pub time_signature: TimeSignature,
    /// Tempo in quarter notes per minute.
    pub bpm: u32,
    pub tracks: Vec<Track>,
}

/// A project as contracts see it.
pub struct ProjectView {
    pub name: Seq<char>,
    pub time_signature: TimeSignature,
    pub bpm: u32,
    pub tracks: Seq<TrackView>,
}

impl View for Project {
    type V = ProjectView;

    open spec fn view(&self) -> ProjectView {
        ProjectView {
            name: self.name@,
            time_signature: self.time_signature,
            bpm: self.bpm,
            tracks: self.tracks@.map_values(|t: Track| t@),
        }
    }
}

/// The greatest length among `tracks`, or zero if there is none above zero.
pub open spec fn longest_track(tracks: Seq<TrackView>) -> int
    decreases tracks.len(),
{
    if tracks.len() == 0 {
        0
    } else {
        let rest = longest_track(tracks.drop_last());
        if tracks.last().length() > rest {
            tracks.last().length()
        } else {
            rest
        }
    }
}

impl ProjectView {
    /// A positive tempo, a well-formed time signature and well-formed tracks.
    pub open spec fn wf(&self) -> bool {
        &&& self.bpm > 0
        &&& self.time_signature.wf()
        &&& forall|i: int| 0 <= i < self.tracks.len() ==> (#[trigger] self.tracks[i]).wf()
    }

    /// End of the note that ends last, over all tracks; zero without notes.
    pub open spec fn length(&self) -> int {
        longest_track(self.tracks)
    }

    /// Number of notes on all tracks together.
    pub open spec fn note_count(&self) -> nat {
        count_notes(self.tracks)
    }
}

/// Number of notes on `tracks` together.
pub open spec fn count_notes(tracks: Seq<TrackView>) -> nat
    decreases tracks.len(),
{
    if tracks.len() == 0 {
        0
    } else {
        count_notes(tracks.drop_last()) + tracks.last().notes.len()
    }
}

impl Project {
    /// End of the note that ends last, over all tracks; zero without notes.
    pub fn length(&self) -> (r: i64)
        ensures
            r == self@.length(),
    {
        let mut longest: i64 = 0;
        let n: usize = self.tracks.len();
        let mut index: usize = 0;
        while index < n
            invariant
                n == self.tracks@.len(),
                index <= n,
                longest == longest_track(self@.tracks.take(index as int)),
            decreases n - index,
        {
            proof {
                assert(self@.tracks.take(index + 1).drop_last() == self@.tracks.take(
                    index as int,
                ));
            }
            let end: i64 = self.tracks[index].length();
            if end > longest {
                longest = end;
            }
            index += 1;
        }
        proof {
            assert(self@.tracks.take(n as int) == self@.tracks);
        }
        longest
    }

    /// Number of notes on all tracks together, or `u64::MAX` if there are
    /// more than that.
    pub fn note_count(&self) -> (r: u64)
        ensures
            r == if self@.note_count() <= u64::MAX {
                self@.note_count()
            } else {
                u64::MAX as nat
            },
    {
        let mut count: u64 = 0;
        let n: usize = self.tracks.len();
        let mut index: usize = 0;
        while index < n
            invariant
                n == self.tracks@.len(),
                index <= n,
                count == if count_notes(self@.tracks.take(index as int)) <= u64::MAX {
                    count_notes(self@.tracks.take(index as int))
                } else {
                    u64::MAX as nat
                },
            decreases n - index,
        {
            proof {
                assert(self@.tracks.take(index + 1).drop_last() == self@.tracks.take(
                    index as int,
                ));
            }
            count = count.saturating_add(self.tracks[index].notes.len() as u64);
            index += 1;
        }
        proof {
            assert(self@.tracks.take(n as int) == self@.tracks);
        }
        count
    }
}

} // verus!
