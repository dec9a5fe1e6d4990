use staffscan::collector::{h2n, h2n_wing, Collector, Note};
use staffscan::fixed::Fixed;

fn whole(v: i64) -> Fixed {
    Fixed::new(v)
}

/// Records one quarter notehead at the staff position `num / den` and
/// flushes it.
fn tone_for(num: i64, den: i64) -> Vec<i64> {
    let mut c = Collector::new();
    c.put_quarter(whole(1), whole(num), whole(den));
    c.prepare();
    match &c.notes[0] {
        Note::Note(tones, ticks) => {
            assert_eq!(*ticks, 480);
            tones.clone()
        },
        Note::Rest(_) => panic!("expected a chord"),
    }
}

#[test]
fn pitch_mapping_on_the_staff() {
    // diatonic position 0 is middle C; each half position is one scale step
    assert_eq!(tone_for(0, 1), vec![60]);
    assert_eq!(tone_for(1, 2), vec![62]);
    assert_eq!(tone_for(1, 1), vec![64]);
    assert_eq!(tone_for(3, 2), vec![65]);
    assert_eq!(tone_for(2, 1), vec![67]);
    assert_eq!(tone_for(5, 2), vec![69]);
    assert_eq!(tone_for(3, 1), vec![71]);
}

#[test]
fn pitch_mapping_below_middle_c() {
    assert_eq!(tone_for(-1, 2), vec![59]);
    assert_eq!(tone_for(-1, 1), vec![57]);
    assert_eq!(tone_for(-7, 2), vec![48]);
}

#[test]
fn pitch_mapping_octave_and_beyond() {
    // position 7/2 closes the octave; position 4 steps once past it
    assert_eq!(tone_for(7, 2), vec![72]);
    assert_eq!(tone_for(4, 1), vec![74]);
}

#[test]
fn half_noteheads_flush_at_twice_the_quarter() {
    let mut c = Collector::new();
    c.put_half(whole(1), whole(1), whole(2));
    c.prepare();
    assert_eq!(c.notes, vec![Note::Note(vec![62], 960)]);
}

#[test]
fn duration_classes_flush_shortest_first() {
    let mut c = Collector::new();
    c.put_whole(whole(1), whole(0), whole(1));
    c.put_half(whole(2), whole(1), whole(1));
    c.put_quarter(whole(3), whole(2), whole(1));
    c.prepare();
    assert_eq!(
        c.notes,
        vec![
            Note::Note(vec![67], 480),
            Note::Note(vec![64], 960),
            Note::Note(vec![60], 1920),
        ]
    );
}

#[test]
fn whole_noteheads_flush_long() {
    let mut c = Collector::new();
    c.put_whole(whole(1), whole(0), whole(1));
    c.prepare();
    assert_eq!(c.notes, vec![Note::Note(vec![60], 1920)]);
}

#[test]
fn wing_reclassifies_pending_quarters() {
    let mut c = Collector::new();
    c.put_quarter(whole(1), whole(1), whole(2));
    c.put_wing(whole(2));
    // the wing mapping takes four half-steps per staff position
    assert_eq!(c.notes, vec![Note::Note(vec![62], 240)]);
}

#[test]
fn rest_flushes_then_rests() {
    let mut c = Collector::new();
    c.put_quarter(whole(1), whole(0), whole(1));
    c.put_rest(whole(2), 8);
    assert_eq!(c.notes, vec![Note::Note(vec![60], 480), Note::Rest(240)]);
    let mut c2 = Collector::new();
    c2.put_rest(whole(1), 1);
    assert_eq!(c2.notes, vec![Note::Rest(1920)]);
}

#[test]
fn chord_keeps_insertion_order() {
    let mut c = Collector::new();
    c.put_quarter(whole(1), whole(1), whole(1));
    c.put_quarter(whole(2), whole(0), whole(1));
    c.prepare();
    assert_eq!(c.notes, vec![Note::Note(vec![64, 60], 480)]);
}

#[test]
fn pitch_function_matches_the_collector() {
    // the same mapping, called directly
    assert_eq!(h2n(whole(0), whole(1)), 60);
    assert_eq!(h2n(whole(1), whole(2)), 62);
    assert_eq!(h2n(whole(-1), whole(1)), 57);
    assert_eq!(h2n(whole(7), whole(2)), 72);
    assert_eq!(h2n(whole(4), whole(1)), 74);
    assert_eq!(h2n_wing(whole(1), whole(2)), 62);
    assert_eq!(h2n_wing(whole(-3), whole(2)), 54);
}
