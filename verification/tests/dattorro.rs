use delax::error::ConfigError;
use delax::filters::dattorro::DelayLine;
use delax::filters::dattorro::OutputTaps;

struct InputDiffusor {
    delay_line: DelayLine<f32>,
    gain: f32,
}

impl InputDiffusor {
    fn new(delay: usize, gain: f32) -> Self {
        Self {
            delay_line: DelayLine::new(delay, 0.).unwrap(),
            gain,
        }
    }

    fn process(&mut self, input: f32) -> f32 {
        let delayed = self.delay_line.get();
        let in_changed = input + delayed * self.gain * -1.;

        self.delay_line.insert(in_changed);

        delayed + in_changed * self.gain
    }
}

#[test]
fn delay_line() {
    let mut delay_line = DelayLine::new(4, 0.).unwrap();
    delay_line.set_delay(2);
    assert_eq!(delay_line.process(1.), 0.);
    assert_eq!(delay_line.process(2.), 0.);
    assert_eq!(delay_line.process(3.), 1.);
    assert_eq!(delay_line.process(4.), 2.);
    assert_eq!(delay_line.process(5.), 3.);
    assert_eq!(delay_line.process(6.), 4.);
    assert_eq!(delay_line.process(7.), 5.);
    assert_eq!(delay_line.process(8.), 6.);
}

#[test]
fn input_diffusor() {
    let mut input_diffusor = InputDiffusor::new(2, 0.5);

    // Values are calculated by hand based on the paper structure
    assert_eq!(input_diffusor.process(1.), 0.5);
    assert_eq!(input_diffusor.process(2.), 1.);
    assert_eq!(input_diffusor.process(3.), 2.25);
}

#[test]
fn line_without_slots_is_refused() {
    assert!(matches!(
        DelayLine::<f32>::new(0, 0.),
        Err(ConfigError::ZeroCapacity)
    ));
}

#[test]
fn fresh_line_delays_by_its_capacity() {
    let mut line = DelayLine::new(3, 0.).unwrap();
    let out: Vec<f32> = (1..=7).map(|k| line.process(k as f32)).collect();
    assert_eq!(out, [0., 0., 0., 1., 2., 3., 4.]);
}

#[test]
fn delay_is_counted_modulo_the_capacity() {
    let mut line = DelayLine::new(4, 0.).unwrap();
    line.set_delay(6);
    let out: Vec<f32> = (1..=5).map(|k| line.process(k as f32)).collect();
    assert_eq!(out, [0., 0., 1., 2., 3.]);
    // A delay of zero reads a full turn back.
    let mut line = DelayLine::new(2, 0.).unwrap();
    line.set_delay(0);
    let out: Vec<f32> = (1..=4).map(|k| line.process(k as f32)).collect();
    assert_eq!(out, [0., 0., 1., 2.]);
}

#[test]
fn process_is_get_then_insert() {
    let mut together = DelayLine::new(5, 0.).unwrap();
    let mut apart = DelayLine::new(5, 0.).unwrap();
    together.set_delay(3);
    apart.set_delay(3);
    for k in 1..=12 {
        let input = k as f32 * 0.5;
        let delayed = apart.get();
        apart.insert(input);
        assert_eq!(together.process(input), delayed);
    }
}

#[test]
fn tap_at_any_delay_reads_without_storing() {
    let mut line = DelayLine::new(4, 0.).unwrap();
    for input in [1., 2., 3.] {
        line.insert(input);
    }
    assert_eq!(line.get_with_delay(1), 3.);
    assert_eq!(line.get_with_delay(2), 2.);
    assert_eq!(line.get_with_delay(3), 1.);
    assert_eq!(line.get_with_delay(4), 0.);
    assert_eq!(line.get_with_delay(0), 0.);
    assert_eq!(line.get_with_delay(5), 3.);
    assert_eq!(line.get_with_delay(1), 3.);
}

#[test]
fn single_slot_line_returns_the_previous_input() {
    let mut line = DelayLine::new(1, 0.).unwrap();
    assert_eq!(line.process(1.), 0.);
    assert_eq!(line.process(2.), 1.);
    assert_eq!(line.process(3.), 2.);
    assert_eq!(line.get_with_delay(7), 3.);
}

#[test]
fn cloned_line_goes_its_own_way() {
    let mut line = DelayLine::new(2, 0.).unwrap();
    line.insert(1.);
    let mut copy = line.clone();
    copy.insert(2.);
    assert_eq!(line.get_with_delay(1), 1.);
    assert_eq!(copy.get_with_delay(1), 2.);
}

#[test]
fn output_taps_need_a_slot_each() {
    assert!(matches!(
        OutputTaps::<f32>::new(3, 0.),
        Err(ConfigError::ZeroCapacity)
    ));
    assert!(OutputTaps::<f32>::new(4, 0.).is_ok());
}

#[test]
fn output_taps_start_silent() {
    let taps = OutputTaps::new(44100, 0.).unwrap();
    assert_eq!(taps.left(), [0.; 7]);
    assert_eq!(taps.right(), [0.; 7]);
}

#[test]
fn output_taps_read_each_line_at_its_own_distance() {
    // Line by line: a sample that stands for the line and the time.
    let mut taps = OutputTaps::new(44100, 0.).unwrap();
    let steps = 4000usize;
    for step in 1..=steps {
        let at = step as f32;
        taps.record(
            (1e5 + at, 2e5 + at, 3e5 + at),
            (4e5 + at, 5e5 + at, 6e5 + at),
        );
    }
    let back = |line: f32, distance: usize| line + (steps - distance + 1) as f32;
    assert_eq!(
        taps.left(),
        [
            back(4e5, 266),
            back(4e5, 2974),
            back(5e5, 1913),
            back(6e5, 1996),
            back(1e5, 1990),
            back(2e5, 187),
            back(3e5, 1066),
        ]
    );
    assert_eq!(
        taps.right(),
        [
            back(1e5, 353),
            back(1e5, 3627),
            back(2e5, 1228),
            back(3e5, 2673),
            back(4e5, 2111),
            back(5e5, 335),
            back(6e5, 121),
        ]
    );
}

#[test]
fn output_taps_wrap_on_short_lines() {
    // Two slots per line: a distance counts modulo two.
    let mut taps = OutputTaps::new(8, 0.).unwrap();
    taps.record((1., 2., 3.), (4., 5., 6.));
    // Even distances read the slot about to be overwritten, odd ones the
    // sample just recorded.
    assert_eq!(taps.left(), [0., 0., 5., 0., 0., 2., 0.]);
    assert_eq!(taps.right(), [1., 1., 0., 3., 4., 5., 6.]);
}

#[test]
fn cloned_taps_go_their_own_way() {
    let mut taps = OutputTaps::new(8, 0.).unwrap();
    let copy = taps.clone();
    taps.record((1., 2., 3.), (4., 5., 6.));
    assert_eq!(copy.right(), [0.; 7]);
    assert_eq!(taps.right()[6], 6.);
}
