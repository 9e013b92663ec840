use delax::delay_engine::engine::check_jumps;
use delax::delay_engine::engine::jumps_fit_capacity;
use delax::delay_engine::engine::DelayEngine;
use delax::delay_engine::engine::DelayInterpolationMode;
use delax::delay_engine::engine::Jump;
use delax::error::ConfigError;

fn engine(size: usize) -> DelayEngine<f32> {
    DelayEngine::new(size, 0.).unwrap()
}

fn keep_newer(_older: f32, newer: f32) -> f32 {
    newer
}

#[test]
fn init() {
    let mut engine = engine(44100);

    assert_eq!(engine.pop_sample(), 0.);
    assert_eq!(engine.get_buffer_ptr().len(), 44100);
}

#[test]
fn check_sample_inout() {
    let mut engine = engine(5);

    engine.write_sample(1.);
    engine.write_sample(2.);
    engine.write_sample(3.);
    engine.write_sample(4.);
    engine.write_sample(5.);

    assert_eq!(engine.pop_sample(), 1.);
    assert_eq!(engine.pop_sample(), 2.);
    assert_eq!(engine.pop_sample(), 3.);
    assert_eq!(engine.pop_sample(), 4.);
    assert_eq!(engine.pop_sample(), 5.);
    assert_eq!(engine.pop_sample(), 1.);
}

#[test]
fn internal_buffer() {
    let mut engine = engine(5);

    engine.write_sample(1.);
    engine.write_sample(2.);
    engine.write_sample(3.);
    engine.write_sample(4.);
    engine.write_sample(5.);

    let buffer = engine.get_buffer_ptr();

    assert_eq!(buffer, [1., 2., 3., 4., 5.])
}

#[test]
fn buffer_size() {
    let mut engine = engine(5);

    let buffer = engine.get_buffer_ptr();

    assert_eq!(buffer.len(), 5);

    engine.set_buffer_size(10).unwrap();

    let buffer = engine.get_buffer_ptr();

    assert_eq!(buffer.len(), 10);
}

#[test]
fn read_jumps() {
    let mut engine = engine(10);
    engine
        .set_raw_read_jumps(&vec![Jump(9, 0), Jump(2, 5), Jump(7, 3), Jump(4, 8)])
        .unwrap();

    engine.write_sample(1.);
    engine.write_sample(2.);
    engine.write_sample(3.);
    engine.write_sample(4.);
    engine.write_sample(5.);
    engine.write_sample(6.);
    engine.write_sample(7.);
    engine.write_sample(8.);
    engine.write_sample(9.);
    engine.write_sample(10.);

    assert_eq!(engine.pop_sample(), 1.);
    assert_eq!(engine.pop_sample(), 2.);
    assert_eq!(engine.pop_sample(), 3.);
    assert_eq!(engine.pop_sample(), 6.);
    assert_eq!(engine.pop_sample(), 7.);
    assert_eq!(engine.pop_sample(), 8.);
    assert_eq!(engine.pop_sample(), 4.);
    assert_eq!(engine.pop_sample(), 5.);
    assert_eq!(engine.pop_sample(), 9.);
    assert_eq!(engine.pop_sample(), 10.);

    assert_eq!(engine.pop_sample(), 1.);
    assert_eq!(engine.pop_sample(), 2.);
    assert_eq!(engine.pop_sample(), 3.);
    assert_eq!(engine.pop_sample(), 6.);
    assert_eq!(engine.pop_sample(), 7.);
    assert_eq!(engine.pop_sample(), 8.);
    assert_eq!(engine.pop_sample(), 4.);
    assert_eq!(engine.pop_sample(), 5.);
    assert_eq!(engine.pop_sample(), 9.);
    assert_eq!(engine.pop_sample(), 10.);
}

#[test]
fn zero_capacity_is_refused() {
    assert!(matches!(
        DelayEngine::<f32>::new(0, 0.),
        Err(ConfigError::ZeroCapacity)
    ));
}

#[test]
fn fewer_samples_than_slots_come_back_in_order() {
    let mut engine = engine(8);
    for sample in [0.5, -0.25, 0.75] {
        engine.write_sample(sample);
    }
    assert_eq!(engine.pop_sample(), 0.5);
    assert_eq!(engine.pop_sample(), -0.25);
    assert_eq!(engine.pop_sample(), 0.75);
    assert_eq!(engine.read_head(), 3);
    assert_eq!(engine.write_head(), 3);
}

#[test]
fn write_cursor_wraps_to_first_slot() {
    let mut engine = engine(3);
    for sample in [1., 2., 3.] {
        engine.write_sample(sample);
    }
    assert_eq!(engine.write_head(), 0);
    engine.write_sample(4.);
    assert_eq!(engine.get_buffer_ptr(), [4., 2., 3.]);
    assert_eq!(engine.write_head(), 1);
}

#[test]
fn single_slot_engine_keeps_both_cursors_on_it() {
    let mut engine = engine(1);
    engine.write_sample(1.);
    engine.write_sample(2.);
    assert_eq!(engine.write_head(), 0);
    assert_eq!(engine.pop_sample(), 2.);
    assert_eq!(engine.pop_sample(), 2.);
    assert_eq!(engine.read_head(), 0);
}

#[test]
fn reordering_jumps_visit_each_slot_once_per_cycle() {
    // Slots in the order 0, 1, 5, 6, 7, 2, 3, 4, 8, 9.
    let mut engine = engine(10);
    engine
        .set_raw_read_jumps(&[Jump(9, 0), Jump(1, 5), Jump(7, 2), Jump(4, 8)])
        .unwrap();
    for slot in 0..10 {
        engine.write_sample(slot as f32);
    }
    for _cycle in 0..3 {
        let mut seen = [0usize; 10];
        let mut order = Vec::new();
        for _ in 0..10 {
            let sample = engine.pop_sample();
            seen[sample as usize] += 1;
            order.push(sample);
        }
        assert_eq!(seen, [1; 10]);
        assert_eq!(order, [0., 1., 5., 6., 7., 2., 3., 4., 8., 9.]);
    }
}

#[test]
fn first_matching_jump_wins() {
    let jumps = vec![Jump(3, 1), Jump(3, 2), Jump(4, 0)];
    let found = check_jumps(3, &jumps).unwrap();
    assert_eq!((found.0, found.1), (3, 1));
    assert!(check_jumps(2, &jumps).is_none());
}

#[test]
fn jumps_must_keep_the_cursor_inside() {
    assert!(jumps_fit_capacity(&vec![Jump(4, 0)], 5));
    assert!(jumps_fit_capacity(&vec![Jump(2, 4), Jump(4, 0)], 5));
    // A destination outside the buffer.
    assert!(!jumps_fit_capacity(&vec![Jump(4, 5)], 5));
    // Nothing leads on from the last slot.
    assert!(!jumps_fit_capacity(&vec![Jump(3, 0)], 5));
    assert!(!jumps_fit_capacity(&vec![], 5));
}

#[test]
fn invalid_jumps_are_refused_and_change_nothing() {
    let mut engine = engine(4);
    for sample in [1., 2., 3., 4.] {
        engine.write_sample(sample);
    }
    assert_eq!(
        engine.set_raw_read_jumps(&[Jump(3, 4)]),
        Err(ConfigError::InvalidJumps)
    );
    assert_eq!(
        engine.set_raw_read_jumps(&[Jump(1, 0)]),
        Err(ConfigError::InvalidJumps)
    );
    assert_eq!(engine.pop_sample(), 1.);
    assert_eq!(engine.pop_sample(), 2.);
    assert_eq!(engine.pop_sample(), 3.);
    assert_eq!(engine.pop_sample(), 4.);
    assert_eq!(engine.pop_sample(), 1.);
}

#[test]
fn tap_reads_behind_the_write_cursor() {
    let mut engine = engine(5);
    for sample in [1., 2., 3.] {
        engine.write_sample(sample);
    }
    assert_eq!(engine.tap(1), 3.);
    assert_eq!(engine.tap(2), 2.);
    assert_eq!(engine.tap(3), 1.);
    // A full turn back is the slot that the next write fills.
    assert_eq!(engine.tap(0), 0.);
    assert_eq!(engine.tap(5), 0.);
    // Longer delays count modulo the capacity.
    assert_eq!(engine.tap(6), 3.);
    assert_eq!(engine.tap(usize::MAX), engine.tap(usize::MAX % 5));
    assert_eq!(engine.read_head(), 0);
    assert_eq!(engine.write_head(), 3);
}

#[test]
fn delay_places_read_cursor_behind_write_cursor() {
    let mut engine = engine(5);
    for sample in [1., 2., 3.] {
        engine.write_sample(sample);
    }
    engine.set_delay_amount(2);
    assert_eq!(engine.delay_samples(), 2);
    assert_eq!(engine.read_head(), 1);
    engine.set_delay_amount(4);
    assert_eq!(engine.read_head(), 4);
    // Modulo the capacity.
    engine.set_delay_amount(7);
    assert_eq!(engine.read_head(), 1);
    assert_eq!(engine.delay_samples(), 7);
}

#[test]
fn longer_delay_means_more_pops_before_a_write_returns() {
    for delay in 0..5usize {
        let mut engine = engine(5);
        for sample in [1., 2., 3.] {
            engine.write_sample(sample);
        }
        engine.set_delay_amount(delay);
        engine.write_sample(9.);
        let mut pops = 0;
        while engine.pop_sample() != 9. {
            pops += 1;
        }
        assert_eq!(pops, delay);
    }
}

#[test]
fn nearest_reading_is_the_plain_tap() {
    let mut engine = engine(6);
    for sample in [1., 2., 3., 4.] {
        engine.write_sample(sample);
    }
    for delay in 0..14usize {
        engine.set_delay_amount(delay);
        let nearest = engine.interpolate_sample(DelayInterpolationMode::Nearest, keep_newer);
        assert_eq!(nearest, engine.tap(delay));
        assert_eq!(nearest, engine.get_buffer_ptr()[engine.read_head()]);
        let head_before = engine.read_head();
        assert_eq!(engine.pop_sample(), nearest);
        assert_ne!(engine.read_head(), head_before);
    }
}

#[test]
fn nearest_reading_never_blends() {
    let mut engine = engine(4);
    engine.write_sample(1.);
    engine.set_delay_amount(1);
    let out = engine.interpolate_sample(DelayInterpolationMode::Nearest, |_, _| -100.);
    assert_eq!(out, 1.);
}

#[test]
fn linear_reading_blends_the_tap_with_its_older_neighbour() {
    let mut engine = engine(4);
    for sample in [1., 2., 4.] {
        engine.write_sample(sample);
    }
    engine.set_delay_amount(1);
    let weight = 0.25f32;
    let out = engine.interpolate_sample(DelayInterpolationMode::Linear, |older, newer| {
        older * (1. - weight) + newer * weight
    });
    assert_eq!(out, 2. * 0.75 + 4. * 0.25);
    let pair = std::cell::Cell::new((0., 0.));
    engine.interpolate_sample(DelayInterpolationMode::Linear, |older, newer| {
        pair.set((older, newer));
        newer
    });
    assert_eq!(pair.get(), (2., 4.));
    // At the oldest slot the older neighbour is found by wrapping.
    engine.set_delay_amount(3);
    engine.interpolate_sample(DelayInterpolationMode::Linear, |older, newer| {
        pair.set((older, newer));
        newer
    });
    assert_eq!(pair.get(), (0., 1.));
    assert_eq!(engine.read_head(), 0);
}

#[test]
fn reset_silences_and_leaves_the_cursors() {
    let mut engine = engine(4);
    for sample in [1., 2., 3.] {
        engine.write_sample(sample);
    }
    engine.pop_sample();
    engine.reset();
    assert_eq!(engine.get_buffer_ptr(), [0.; 4]);
    assert_eq!(engine.read_head(), 1);
    assert_eq!(engine.write_head(), 3);
}

#[test]
fn resizing_silences_and_wraps_both_cursors() {
    let mut engine = engine(10);
    for slot in 0..8 {
        engine.write_sample(1. + slot as f32);
    }
    for _ in 0..7 {
        engine.pop_sample();
    }
    engine.set_buffer_size(3).unwrap();
    assert_eq!(engine.get_buffer_ptr(), [0.; 3]);
    assert_eq!(engine.write_head(), 8 % 3);
    assert_eq!(engine.read_head(), 7 % 3);
    // The smaller buffer wraps at its own end.
    for sample in [1., 2., 3.] {
        engine.write_sample(sample);
    }
    assert_eq!(engine.write_head(), 2);
    assert_eq!(engine.get_buffer_ptr(), [2., 3., 1.]);
    assert_eq!(engine.pop_sample(), 3.);
    assert_eq!(engine.pop_sample(), 1.);
    assert_eq!(engine.pop_sample(), 2.);
}

#[test]
fn growing_keeps_the_cursors_and_wraps_at_the_new_end() {
    let mut engine = engine(2);
    engine.write_sample(1.);
    engine.set_buffer_size(4).unwrap();
    assert_eq!(engine.write_head(), 1);
    for sample in [1., 2., 3.] {
        engine.write_sample(sample);
    }
    assert_eq!(engine.write_head(), 0);
    assert_eq!(engine.get_buffer_ptr(), [0., 1., 2., 3.]);
}

#[test]
fn resizing_keeps_jumps_that_still_fit() {
    let mut engine = engine(6);
    engine
        .set_raw_read_jumps(&[Jump(3, 0), Jump(5, 0)])
        .unwrap();
    engine.set_buffer_size(4).unwrap();
    for sample in [1., 2., 3., 4.] {
        engine.write_sample(sample);
    }
    let popped: Vec<f32> = (0..5).map(|_| engine.pop_sample()).collect();
    assert_eq!(popped, [1., 2., 3., 4., 1.]);
    // Shrinking below a destination falls back to plain wraparound.
    engine.set_raw_read_jumps(&[Jump(3, 2)]).unwrap();
    engine.set_buffer_size(2).unwrap();
    engine.write_sample(7.);
    engine.write_sample(8.);
    let popped: Vec<f32> = (0..4).map(|_| engine.pop_sample()).collect();
    assert_eq!(popped.len(), 4);
    assert!(engine.read_head() < 2);
}

#[test]
fn resizing_to_nothing_is_refused_and_changes_nothing() {
    let mut engine = engine(3);
    engine.write_sample(1.);
    assert_eq!(engine.set_buffer_size(0), Err(ConfigError::ZeroCapacity));
    assert_eq!(engine.get_buffer_ptr(), [1., 0., 0.]);
    assert_eq!(engine.write_head(), 1);
}

#[test]
fn every_cycle_returns_what_was_written() {
    let mut engine = engine(5);
    for cycle in 0..4 {
        let written: Vec<f32> = (0..5).map(|k| (cycle * 10 + k) as f32).collect();
        for sample in &written {
            engine.write_sample(*sample);
        }
        let popped: Vec<f32> = (0..5).map(|_| engine.pop_sample()).collect();
        assert_eq!(popped, written);
        assert_eq!(engine.read_head(), engine.write_head());
    }
    // Part of a cycle, from cursors in the middle of the buffer.
    engine.write_sample(0.5);
    engine.write_sample(0.25);
    assert_eq!(engine.pop_sample(), 0.5);
    for sample in [1., 2., 3., 4.] {
        engine.write_sample(sample);
    }
    let popped: Vec<f32> = (0..5).map(|_| engine.pop_sample()).collect();
    assert_eq!(popped, [0.25, 1., 2., 3., 4.]);
}

#[test]
fn nothing_fits_a_buffer_without_slots() {
    assert!(!jumps_fit_capacity(&vec![Jump(0, 0)], 0));
    assert!(!jumps_fit_capacity(&vec![], 0));
}
