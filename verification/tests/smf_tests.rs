use staffscan::collector::{Collector, Note};
use staffscan::fixed::Fixed;
use staffscan::smf::{Action, ChannelEvent, Message, MetaKind, Smf};

fn whole(v: i64) -> Fixed {
    Fixed::new(v)
}

fn voice(notes: Vec<Note>) -> Collector {
    let mut c = Collector::new();
    c.notes = notes;
    c
}

#[test]
fn preamble_encodes_the_tempo() {
    let smf = Smf::new(152);
    // 60000000 / 152 == 394736, big-endian in three bytes
    assert_eq!(
        smf.messages[0],
        Message::MetaEvent { delta_time: 0, event: MetaKind::SetTempo, data: vec![6, 5, 240] }
    );
    assert_eq!(
        smf.messages[1],
        Message::MetaEvent { delta_time: 0, event: MetaKind::EndOfTrack, data: vec![] }
    );
    assert_eq!(smf.messages[2], Message::TrackChange);
}

#[test]
fn two_voices_interleave_on_the_timeline() {
    let c0 = voice(vec![Note::Note(vec![52], 480)]);
    let c1 = voice(vec![Note::Note(vec![74], 480)]);
    let mut smf = Smf::new(120);
    smf.write(&vec![c0, c1]);
    let tail: Vec<&Message> = smf.messages.iter().skip(3).collect();
    assert_eq!(
        *tail[0],
        Message::MidiEvent {
            delta_time: 0,
            event: ChannelEvent::NoteOn { ch: 0, note: 52, velocity: 96 },
        }
    );
    assert_eq!(
        *tail[1],
        Message::MidiEvent {
            delta_time: 0,
            event: ChannelEvent::NoteOn { ch: 1, note: 74, velocity: 96 },
        }
    );
    assert_eq!(
        *tail[2],
        Message::MidiEvent {
            delta_time: 480,
            event: ChannelEvent::NoteOff { ch: 0, note: 52, velocity: 64 },
        }
    );
    assert_eq!(
        *tail[3],
        Message::MidiEvent {
            delta_time: 0,
            event: ChannelEvent::NoteOff { ch: 1, note: 74, velocity: 64 },
        }
    );
    assert_eq!(
        *tail[4],
        Message::MetaEvent { delta_time: 1024, event: MetaKind::EndOfTrack, data: vec![] }
    );
    assert_eq!(tail.len(), 5);
}

#[test]
fn every_note_on_has_a_later_matching_off() {
    let c0 = voice(vec![
        Note::Note(vec![60, 64], 480),
        Note::Rest(240),
        Note::Note(vec![67], 240),
    ]);
    let c1 = voice(vec![Note::Rest(480), Note::Note(vec![72], 1920)]);
    let mut smf = Smf::new(120);
    smf.write(&vec![c0, c1]);
    // reconstruct absolute times from the deltas
    let mut clock: u32 = 0;
    let mut actions: Vec<(u32, bool, u8, u8)> = Vec::new();
    for m in smf.messages.iter() {
        if let Message::MidiEvent { delta_time, event } = m {
            clock += delta_time;
            match event {
                ChannelEvent::NoteOn { ch, note, .. } => actions.push((clock, true, *ch, *note)),
                ChannelEvent::NoteOff { ch, note, .. } => actions.push((clock, false, *ch, *note)),
            }
        }
    }
    for &(t, on, ch, note) in actions.iter() {
        if on {
            assert!(actions
                .iter()
                .any(|&(t2, on2, ch2, note2)| !on2 && ch2 == ch && note2 == note && t2 >= t));
        }
    }
    // times never decrease along the stream
    let mut last: u32 = 0;
    for &(t, _, _, _) in actions.iter() {
        assert!(t >= last);
        last = t;
    }
}

#[test]
fn delta_times_sum_to_the_last_action_time_plus_the_tail() {
    let c0 = voice(vec![Note::Note(vec![60], 480), Note::Note(vec![62], 240)]);
    let mut smf = Smf::new(120);
    smf.write(&vec![c0]);
    let mut sum: u32 = 0;
    for m in smf.messages.iter() {
        match m {
            Message::MetaEvent { delta_time, .. } => sum += delta_time,
            Message::TrackChange => {},
            Message::MidiEvent { delta_time, .. } => sum += delta_time,
        }
    }
    // last action is the final note-off at 720
    assert_eq!(sum, 720 + 1024);
}

#[test]
fn rests_advance_the_clock_silently() {
    let c0 = voice(vec![Note::Rest(480), Note::Note(vec![60], 480)]);
    let mut smf = Smf::new(120);
    smf.write(&vec![c0]);
    let tail: Vec<&Message> = smf.messages.iter().skip(3).collect();
    assert_eq!(
        *tail[0],
        Message::MidiEvent {
            delta_time: 480,
            event: ChannelEvent::NoteOn { ch: 0, note: 60, velocity: 96 },
        }
    );
}

#[test]
fn action_time_reads_either_variant() {
    let on = Action::NoteOn { time: 7, ch: 0, note: 60, velocity: 96 };
    let off = Action::NoteOff { time: 9, ch: 0, note: 60, velocity: 64 };
    assert_eq!(on.time(), 7);
    assert_eq!(off.time(), 9);
}
