//! Grid arithmetic of the piano roll and names for what it shows.

use vstd::prelude::*;
use crate::project::{MIN_INTERVAL, NOTE_RECT_HEIGHT, TIME_UNIT_WIDTH, TOP_PITCH};

verus! {

/// Quotient and remainder of `x` by a positive `d`, with the quotient rounded
/// towards minus infinity, so that the remainder is never negative. `x` must
/// have a negative that 64 bits can hold.
pub fn floor_div_rem(x: i64, d: i64) -> (r: (i64, i64))
    requires
        d > 0,
        x > i64::MIN,
    ensures
        r.0 == x as int / d as int,
        r.1 == x as int % d as int,
        x == r.0 * d + r.1,
        0 <= r.1 < d,
{
    if x >= 0 {
        let q: i64 = x / d;
        let m: i64 = x % d;
        proof {
            vstd::arithmetic::div_mod::lemma_fundamental_div_mod(x as int, d as int);
            assert(q * d == d * q) by (nonlinear_arith);
        }
        (q, m)
    } else {
        let back: i64 = -x;
        let q: i64 = back / d;
        let m: i64 = back % d;
        proof {
            vstd::arithmetic::div_mod::lemma_fundamental_div_mod(back as int, d as int);
            assert(q * d == d * q) by (nonlinear_arith);
            assert(0 <= q <= back) by (nonlinear_arith)
                requires
                    back == d * q + m,
                    0 <= m < d,
                    d > 0,
                    back >= 0,
            ;
        }
        if m == 0 {
            proof {
                assert(x == (-q) * d + 0) by (nonlinear_arith)
                    requires
                        -x == d * q,
                ;
                vstd::arithmetic::div_mod::lemma_fundamental_div_mod_converse(
                    x as int,
                    d as int,
                    -(q as int),
                    0,
                );
            }
            (-q, 0)
        } else {
            proof {
                assert(x == (-q - 1) * d + (d - m)) by (nonlinear_arith)
                    requires
                        -x == d * q + m,
                ;
                vstd::arithmetic::div_mod::lemma_fundamental_div_mod_converse(
                    x as int,
                    d as int,
                    -(q as int) - 1,
                    d - m,
                );
            }
            (-q - 1, d - m)
        }
    }
}

/// The multiple of `precision` nearest to `x`; halfway between two of them,
/// the upper one.
pub open spec fn snap_spec(x: int, precision: int) -> int {
    let over = x % precision;
    if 2 * over >= precision {
        x - over + precision
    } else {
        x - over
    }
}

/// `snap_spec(x, precision)` is a multiple of `precision`, lies no further
/// than half of `precision` from `x`, and is the upper of the two candidates
/// when `x` is halfway between them. No other number has these properties.
pub proof fn lemma_snap_nearest(x: int, precision: int, other: int)
    requires
        precision > 0,
    ensures
        snap_spec(x, precision) % precision == 0,
        -precision <= 2 * (x - snap_spec(x, precision)) < precision,
        other % precision == 0 && -precision <= 2 * (x - other) < precision ==> other == snap_spec(
            x,
            precision,
        ),
{
    let s = snap_spec(x, precision);
    let over = x % precision;
    let below = x / precision;
    assert(x == precision * below + over) by {
        vstd::arithmetic::div_mod::lemma_fundamental_div_mod(x, precision);
    }
    assert(s % precision == 0) by {
        if 2 * over >= precision {
            assert(s == precision * (below + 1)) by (nonlinear_arith)
                requires
                    s == x - over + precision,
                    x == precision * below + over,
            ;
            vstd::arithmetic::div_mod::lemma_mod_multiples_basic(below + 1, precision);
            assert(precision * (below + 1) == (below + 1) * precision) by (nonlinear_arith);
        } else {
            vstd::arithmetic::div_mod::lemma_mod_multiples_basic(below, precision);
            assert(precision * below == below * precision) by (nonlinear_arith);
        }
    }
    if other % precision == 0 && -precision <= 2 * (x - other) < precision {
        let k = other / precision;
        let m = s / precision;
        vstd::arithmetic::div_mod::lemma_fundamental_div_mod(other, precision);
        vstd::arithmetic::div_mod::lemma_fundamental_div_mod(s, precision);
        assert(k == m) by (nonlinear_arith)
            requires
                precision > 0,
                other == precision * k,
                s == precision * m,
                -precision <= 2 * (x - other) < precision,
                -precision <= 2 * (x - s) < precision,
        ;
    }
}

/// Rounds `x` to the nearest multiple of `precision`, for values that leave
/// room for the rounding.
fn snap_wide(x: i64, precision: i64) -> (r: i64)
    requires
        0 < precision <= 0x1_0000_0000,
        -0x2_0000_0000 <= x <= 0x2_0000_0000,
    ensures
        r == snap_spec(x as int, precision as int),
        r % precision == 0,
        -precision <= 2 * (x - r) < precision,
{
    let over: i64 = floor_div_rem(x, precision).1;
    proof {
        lemma_snap_nearest(x as int, precision as int, 0);
    }
    if 2 * over >= precision {
        x - over + precision
    } else {
        x - over
    }
}

/// Rounds `x` to the nearest multiple of `precision`, which must be above
/// zero. A value halfway between two multiples goes to the upper one.
pub fn snap(x: i32, precision: i32) -> (r: i64)
    requires
        precision > 0,
    ensures
        r == snap_spec(x as int, precision as int),
        r % (precision as i64) == 0,
        -precision <= 2 * (x - r) < precision,
{
    snap_wide(x as i64, precision as i64)
}

/// Width of one grid step on the piano roll, in screen units.
pub const GRID_STEP_WIDTH: i32 = 20_000;

/// The grid time nearest to the horizontal position `x` of the piano roll.
///
/// The position `x / WHOLE_NOTE_WIDTH`, in whole notes, is snapped to the
/// grid of `MIN_INTERVAL`. Snapping in screen units and converting then gives
/// the same, and stays in whole numbers.
pub open spec fn pointer_time(x: int) -> int {
    snap_spec(x, GRID_STEP_WIDTH as int) / (TIME_UNIT_WIDTH as int)
}

/// The grid time nearest to the horizontal position `x`, which may lie up
/// to a thousand pixels outside the range of pointer positions.
pub fn grid_time(x: i64) -> (r: i32)
    requires
        i32::MIN - 1_000_000 <= x <= i32::MAX + 1_000_000,
    ensures
        r == pointer_time(x as int),
        r % MIN_INTERVAL == 0,
        -GRID_STEP_WIDTH <= 2 * (x - r * TIME_UNIT_WIDTH) < GRID_STEP_WIDTH,
{
    let snapped: i64 = snap_wide(x, GRID_STEP_WIDTH as i64);
    let time: i64 = snapped / TIME_UNIT_WIDTH;
    proof {
        let steps = snapped as int / (GRID_STEP_WIDTH as int);
        vstd::arithmetic::div_mod::lemma_fundamental_div_mod(
            snapped as int,
            GRID_STEP_WIDTH as int,
        );
        assert(snapped == 32 * (625 * steps));
        vstd::arithmetic::div_mod::lemma_fundamental_div_mod_converse(
            snapped as int,
            32,
            625 * steps,
            0,
        );
        assert(snapped as int / 32 == 625 * steps);
        vstd::arithmetic::div_mod::lemma_fundamental_div_mod_converse(
            625 * steps,
            625,
            steps,
            0,
        );
        if snapped < 0 {
            vstd::arithmetic::div_mod::lemma_fundamental_div_mod_converse(
                -(snapped as int),
                32,
                -(625 * steps),
                0,
            );
        }
    }
    time as i32
}

/// The grid time nearest to the horizontal pointer position `mouse_x`: a
/// multiple of `MIN_INTERVAL`, no further than half a grid step from the
/// pointer.
pub fn mouse_x_to_interval(mouse_x: i32) -> (r: i32)
    ensures
        r == pointer_time(mouse_x as int),
        r % MIN_INTERVAL == 0,
        -GRID_STEP_WIDTH <= 2 * (mouse_x - r * TIME_UNIT_WIDTH) < GRID_STEP_WIDTH,
{
    grid_time(mouse_x as i64)
}

/// `time` held within what a note can store.
pub open spec fn spec_clamp_time(time: int) -> int {
    if time < i32::MIN {
        i32::MIN as int
    } else if time > i32::MAX {
        i32::MAX as int
    } else {
        time
    }
}

/// `time` held within what a note can store.
pub fn clamp_time(time: i128) -> (r: i32)
    ensures
        r == spec_clamp_time(time as int),
{
    if time < i32::MIN as i128 {
        i32::MIN
    } else if time > i32::MAX as i128 {
        i32::MAX
    } else {
        time as i32
    }
}

/// The pitch whose row starts nearest to the vertical position `y` of the
/// piano roll: `127 - y / NOTE_RECT_HEIGHT` rounded to the nearest whole
/// number, halves upwards, and held within `0..=127`.
pub open spec fn pointer_pitch(y: int) -> int {
    let nearest = 127 + (NOTE_RECT_HEIGHT / 2 - y) / (NOTE_RECT_HEIGHT as int);
    if nearest < 0 {
        0
    } else if nearest > 127 {
        127
    } else {
        nearest
    }
}

/// The pitch nearest to the vertical pointer position `mouse_y`: the one
/// whose row has its top border within half a row of the pointer. Pitch 127
/// is at the top, so the pitch falls as `mouse_y` grows.
pub fn mouse_y_to_pitch(mouse_y: i32) -> (r: u8)
    ensures
        r == pointer_pitch(mouse_y as int),
        r <= 127,
        0 < r < 127 ==> (-NOTE_RECT_HEIGHT <= 2 * ((127 - r) * NOTE_RECT_HEIGHT - mouse_y)
            < NOTE_RECT_HEIGHT),
{
    let rows_up: i64 = floor_div_rem(NOTE_RECT_HEIGHT / 2 - mouse_y as i64, NOTE_RECT_HEIGHT).0;
    let nearest: i64 = TOP_PITCH as i64 + rows_up;
    if nearest < 0 {
        0
    } else if nearest > TOP_PITCH as i64 {
        TOP_PITCH
    } else {
        nearest as u8
    }
}

/// The character for a decimal digit.
pub open spec fn digit_char(digit: nat) -> char {
    if digit == 0 {
        '0'
    } else if digit == 1 {
        '1'
    } else if digit == 2 {
        '2'
    } else if digit == 3 {
        '3'
    } else if digit == 4 {
        '4'
    } else if digit == 5 {
        '5'
    } else if digit == 6 {
        '6'
    } else if digit == 7 {
        '7'
    } else if digit == 8 {
        '8'
    } else {
        '9'
    }
}

/// The decimal numeral for `n`, without leading zeros.
pub open spec fn decimal_digits(n: nat) -> Seq<char>
    decreases n,
{
    if n < 10 {
        seq![digit_char(n)]
    } else {
        decimal_digits(n / 10).push(digit_char(n % 10))
    }
}

/// The one-character string for a decimal digit.
fn digit_str(digit: u8) -> (r: &'static str)
    requires
        digit < 10,
    ensures
        r@ == seq![digit_char(digit as nat)],
{
    proof {
        reveal_strlit("0");
        reveal_strlit("1");
        reveal_strlit("2");
        reveal_strlit("3");
        reveal_strlit("4");
        reveal_strlit("5");
        reveal_strlit("6");
        reveal_strlit("7");
        reveal_strlit("8");
        reveal_strlit("9");
    }
    let r = if digit == 0 {
        "0"
    } else if digit == 1 {
        "1"
    } else if digit == 2 {
        "2"
    } else if digit == 3 {
        "3"
    } else if digit == 4 {
        "4"
    } else if digit == 5 {
        "5"
    } else if digit == 6 {
        "6"
    } else if digit == 7 {
        "7"
    } else if digit == 8 {
        "8"
    } else {
        "9"
    };
    assert(r@ =~= seq![digit_char(digit as nat)]);
    r
}

/// The decimal numeral for `n`, without leading zeros.
pub fn decimal(n: u128) -> (r: String)
    ensures
        r@ == decimal_digits(n as nat),
{
    let mut low_first: Vec<u8> = Vec::new();
    let mut rest: u128 = n;
    while rest >= 10
        invariant
            forall|i: int| 0 <= i < low_first@.len() ==> #[trigger] low_first@[i] < 10,
            decimal_digits(n as nat) == decimal_digits(rest as nat) + Seq::new(
                low_first@.len(),
                |i: int| digit_char(low_first@[low_first@.len() - 1 - i] as nat),
            ),
        decreases rest,
    {
        let ghost before = low_first@;
        low_first.push((rest % 10) as u8);
        proof {
            let tail_before = Seq::new(
                before.len(),
                |i: int| digit_char(before[before.len() - 1 - i] as nat),
            );
            let tail_now = Seq::new(
                low_first@.len(),
                |i: int| digit_char(low_first@[low_first@.len() - 1 - i] as nat),
            );
            assert(decimal_digits(rest as nat) + tail_before =~= decimal_digits(
                (rest / 10) as nat,
            ) + tail_now);
        }
        rest = rest / 10;
    }
    let mut text = String::from_str(digit_str(rest as u8));
    let ghost tail = Seq::new(
        low_first@.len(),
        |i: int| digit_char(low_first@[low_first@.len() - 1 - i] as nat),
    );
    let count: usize = low_first.len();
    let mut done: usize = 0;
    while done < count
        invariant
            count == low_first@.len(),
            done <= count,
            forall|i: int| 0 <= i < low_first@.len() ==> #[trigger] low_first@[i] < 10,
            tail == Seq::new(
                low_first@.len(),
                |i: int| digit_char(low_first@[low_first@.len() - 1 - i] as nat),
            ),
            text@ == decimal_digits(rest as nat) + tail.take(done as int),
        decreases count - done,
    {
        text.append(digit_str(low_first[count - 1 - done]));
        proof {
            assert(tail.take(done + 1) =~= tail.take(done as int).push(tail[done as int]));
            assert(text@ =~= decimal_digits(rest as nat) + tail.take(done + 1));
        }
        done += 1;
    }
    proof {
        assert(tail.take(count as int) =~= tail);
    }
    text
}

/// The name of a pitch class, counted in semitones up from C.
pub open spec fn pitch_class_name(class: nat) -> Seq<char> {
    if class == 0 {
        "C"@
    } else if class == 1 {
        "C#"@
    } else if class == 2 {
        "D"@
    } else if class == 3 {
        "D#"@
    } else if class == 4 {
        "E"@
    } else if class == 5 {
        "F"@
    } else if class == 6 {
        "F#"@
    } else if class == 7 {
        "G"@
    } else if class == 8 {
        "G#"@
    } else if class == 9 {
        "A"@
    } else if class == 10 {
        "A#"@
    } else {
        "B"@
    }
}

/// The name of a MIDI note: its pitch class and the number of its octave.
/// Note 0 is the C of octave -1, note 60 the C of octave 4.
pub open spec fn spec_note_name(midi_note: u8) -> Seq<char> {
    pitch_class_name((midi_note % 12) as nat) + if midi_note < 12 {
        "-1"@
    } else {
        decimal_digits((midi_note / 12 - 1) as nat)
    }
}

/// Whether the key of a MIDI note is one of the black keys of a keyboard:
/// those whose name carries a sharp.
pub open spec fn spec_is_black_key(midi_note: u8) -> bool {
    let class = midi_note % 12;
    class == 1 || class == 3 || class == 6 || class == 8 || class == 10
}

/// The name of a MIDI note, such as `C4` for note 60 or `A#-1` for note 10.
pub fn note_name(midi_note: u8) -> (r: String)
    ensures
        r@ == spec_note_name(midi_note),
{
    let class: u8 = midi_note % 12;
    let name: &'static str = if class == 0 {
        "C"
    } else if class == 1 {
        "C#"
    } else if class == 2 {
        "D"
    } else if class == 3 {
        "D#"
    } else if class == 4 {
        "E"
    } else if class == 5 {
        "F"
    } else if class == 6 {
        "F#"
    } else if class == 7 {
        "G"
    } else if class == 8 {
        "G#"
    } else if class == 9 {
        "A"
    } else if class == 10 {
        "A#"
    } else {
        "B"
    };
    let mut text = String::from_str(name);
    if midi_note < 12 {
        text.append("-1");
    } else {
        let octave = decimal((midi_note / 12 - 1) as u128);
        text.append(octave.as_str());
    }
    text
}

/// Whether the key of a MIDI note is a black key.
pub fn is_black_key(midi_note: u8) -> (r: bool)
    ensures
        r == spec_is_black_key(midi_note),
{
    let class: u8 = midi_note % 12;
    class == 1 || class == 3 || class == 6 || class == 8 || class == 10
}

/// An entry of a drop-down list.
#[derive(Clone, Debug, PartialEq, Eq)]
pub struct SelectOption {
    pub label: String,
    /// Whether the list starts out with this entry chosen.
    pub selected: bool,
}

/// An entry as contracts see it.
pub struct SelectOptionView {
    pub label: Seq<char>,
    pub selected: bool,
}

impl View for SelectOption {
    type V = SelectOptionView;

    open spec fn view(&self) -> SelectOptionView {
        SelectOptionView { label: self.label@, selected: self.selected }
    }
}

/// The number that a time-signature list starts out with.
pub const DEFAULT_TIME_SIGNATURE_VALUE: u32 = 4;

/// The entry of a time-signature list for `value`.
pub open spec fn time_signature_option(value: u32) -> SelectOptionView {
    SelectOptionView {
        label: decimal_digits(value as nat),
        selected: value == DEFAULT_TIME_SIGNATURE_VALUE,
    }
}

/// The entries of a drop-down list that offers `values` for one half of the
/// time signature: each value as a numeral, with 4 chosen to start with.
pub fn time_signature_options(values: &[u32]) -> (options: Vec<SelectOption>)
    ensures
        options@.map_values(|o: SelectOption| o@) == values@.map_values(
            |v: u32| time_signature_option(v),
        ),
{
    let mut options: Vec<SelectOption> = Vec::new();
    let n: usize = values.len();
    let mut index: usize = 0;
    while index < n
        invariant
            n == values@.len(),
            index <= n,
            options@.len() == index,
            options@.map_values(|o: SelectOption| o@) == values@.take(index as int).map_values(
                |v: u32| time_signature_option(v),
            ),
        decreases n - index,
    {
        let value: u32 = values[index];
        let ghost before = options@;
        options.push(
            SelectOption {
                label: decimal(value as u128),
                selected: value == DEFAULT_TIME_SIGNATURE_VALUE,
            },
        );
        proof {
            let was = before.map_values(|o: SelectOption| o@);
            let now = options@.map_values(|o: SelectOption| o@);
            let goal = values@.take(index + 1).map_values(|v: u32| time_signature_option(v));
            assert forall|i: int| 0 <= i < now.len() implies #[trigger] now[i] == goal[i] by {
                if i < index {
                    assert(options@[i] == before[i]);
                    assert(now[i] == was[i]);
                }
            }
            assert(now =~= goal);
        }
        index += 1;
    }
    assert(values@.take(n as int) =~= values@);
    options
}

} // verus!
