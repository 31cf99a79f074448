use midi_sequencer::util::{
    clamp_time, decimal, floor_div_rem, grid_time, is_black_key, mouse_x_to_interval,
    mouse_y_to_pitch, note_name, snap,
};

#[test]
fn snap_rounds_down_below_half_a_step() {
    // 0.09 of a whole note on the grid of 1/16
    assert_eq!(snap(900, 625), 625);
    // 0.074 of a whole note
    assert_eq!(snap(740, 625), 625);
}

#[test]
fn snap_rounds_up_above_half_a_step() {
    // 0.10 of a whole note
    assert_eq!(snap(1000, 625), 1250);
}

#[test]
fn snap_rounds_up_at_exactly_half_a_step() {
    assert_eq!(snap(30, 20), 40);
    assert_eq!(snap(29, 20), 20);
    assert_eq!(snap(10, 20), 20);
    assert_eq!(snap(9, 20), 0);
}

#[test]
fn snap_leaves_multiples_alone() {
    assert_eq!(snap(0, 625), 0);
    assert_eq!(snap(625, 625), 625);
    assert_eq!(snap(-1250, 625), -1250);
}

#[test]
fn snap_of_values_below_zero() {
    assert_eq!(snap(-9, 20), 0);
    assert_eq!(snap(-10, 20), 0);
    assert_eq!(snap(-11, 20), -20);
    assert_eq!(snap(-30, 20), -20);
    assert_eq!(snap(-31, 20), -40);
}

#[test]
fn snap_at_the_ends_of_the_range() {
    assert_eq!(snap(i32::MAX, 625), 2_147_483_750);
    assert_eq!(snap(i32::MIN, 625), -2_147_483_750);
    assert_eq!(snap(i32::MAX, i32::MAX), i64::from(i32::MAX));
    assert_eq!(snap(i32::MAX, 1), i64::from(i32::MAX));
}

#[test]
fn floor_division_rounds_towards_minus_infinity() {
    assert_eq!(floor_div_rem(7, 2), (3, 1));
    assert_eq!(floor_div_rem(-7, 2), (-4, 1));
    assert_eq!(floor_div_rem(-8, 2), (-4, 0));
    assert_eq!(floor_div_rem(0, 5), (0, 0));
    assert_eq!(floor_div_rem(-1, 5), (-1, 4));
}

#[test]
fn pointer_time_is_the_nearest_grid_time() {
    // one grid step is 20 pixels wide
    assert_eq!(mouse_x_to_interval(0), 0);
    assert_eq!(mouse_x_to_interval(9_999), 0);
    assert_eq!(mouse_x_to_interval(10_000), 625);
    assert_eq!(mouse_x_to_interval(20_000), 625);
    assert_eq!(mouse_x_to_interval(29_999), 625);
    assert_eq!(mouse_x_to_interval(30_000), 1250);
    assert_eq!(mouse_x_to_interval(320_000), 10_000);
    assert_eq!(mouse_x_to_interval(-10_000), 0);
    assert_eq!(mouse_x_to_interval(-10_001), -625);
}

#[test]
fn pointer_time_at_the_ends_of_the_range() {
    assert_eq!(mouse_x_to_interval(i32::MAX), 67_108_750);
    assert_eq!(mouse_x_to_interval(i32::MIN), -67_108_750);
    assert_eq!(grid_time(i64::from(i32::MIN) - 50_000), -67_110_625);
}

#[test]
fn pointer_pitch_is_127_less_the_rows_down_rounded() {
    // one row is 30 pixels high
    assert_eq!(mouse_y_to_pitch(0), 127);
    assert_eq!(mouse_y_to_pitch(14_999), 127);
    assert_eq!(mouse_y_to_pitch(15_000), 127);
    assert_eq!(mouse_y_to_pitch(15_001), 126);
    assert_eq!(mouse_y_to_pitch(30_000), 126);
    assert_eq!(mouse_y_to_pitch(45_000), 126);
    assert_eq!(mouse_y_to_pitch(45_001), 125);
    assert_eq!(mouse_y_to_pitch(67 * 30_000), 60);
}

#[test]
fn pointer_pitch_stays_within_midi_range() {
    assert_eq!(mouse_y_to_pitch(-1), 127);
    assert_eq!(mouse_y_to_pitch(i32::MIN), 127);
    assert_eq!(mouse_y_to_pitch(127 * 30_000), 0);
    assert_eq!(mouse_y_to_pitch(127 * 30_000 - 15_000), 1);
    assert_eq!(mouse_y_to_pitch(127 * 30_000 - 14_999), 0);
    assert_eq!(mouse_y_to_pitch(i32::MAX), 0);
}

#[test]
fn clamp_keeps_times_that_fit() {
    assert_eq!(clamp_time(0), 0);
    assert_eq!(clamp_time(-625), -625);
    assert_eq!(clamp_time(i128::from(i32::MAX)), i32::MAX);
    assert_eq!(clamp_time(i128::from(i32::MAX) + 1), i32::MAX);
    assert_eq!(clamp_time(i128::from(i32::MIN) - 1), i32::MIN);
    assert_eq!(clamp_time(i128::MAX), i32::MAX);
    assert_eq!(clamp_time(i128::MIN), i32::MIN);
}

#[test]
fn decimal_writes_numerals_without_leading_zeros() {
    assert_eq!(decimal(0), "0");
    assert_eq!(decimal(7), "7");
    assert_eq!(decimal(10), "10");
    assert_eq!(decimal(1234567890), "1234567890");
    assert_eq!(decimal(18_446_744_073_709_551_615), "18446744073709551615");
    assert_eq!(decimal(18_446_744_073_709_551_616), "18446744073709551616");
    assert_eq!(decimal(u128::MAX), "340282366920938463463374607431768211455");
}

#[test]
fn note_names_give_pitch_class_and_octave() {
    assert_eq!(note_name(0), "C-1");
    assert_eq!(note_name(1), "C#-1");
    assert_eq!(note_name(11), "B-1");
    assert_eq!(note_name(12), "C0");
    assert_eq!(note_name(60), "C4");
    assert_eq!(note_name(61), "C#4");
    assert_eq!(note_name(69), "A4");
    assert_eq!(note_name(127), "G9");
    assert_eq!(note_name(255), "D#20");
}

#[test]
fn every_pitch_class_has_its_name() {
    let names = ["C", "C#", "D", "D#", "E", "F", "F#", "G", "G#", "A", "A#", "B"];
    for (class, name) in names.iter().enumerate() {
        assert_eq!(note_name(48 + class as u8), format!("{}3", name));
    }
}

#[test]
fn black_keys_are_those_with_a_sharp_in_their_name() {
    for pitch in 0..=255u8 {
        assert_eq!(is_black_key(pitch), note_name(pitch).contains('#'));
    }
}
