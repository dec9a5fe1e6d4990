use staffscan::collector::Note;
use staffscan::fixed::Fixed;
use staffscan::geom::{HorzLine, Object, Point, Type, VertLine};
use staffscan::interp::Parser;
use staffscan::recognizer::{Error, Recognizer};
use staffscan::stanza::Stanza;

fn whole(v: i64) -> Fixed {
    Fixed::new(v)
}

fn staff_lines(ys: &[i64]) -> Vec<HorzLine> {
    ys.iter().map(|&y| HorzLine::new(whole(0), whole(1000), whole(y))).collect()
}

fn page(horz: Vec<HorzLine>, vert: Vec<VertLine>, objects: Vec<Object>) -> Parser {
    Parser { horz_lines: horz, vert_lines: vert, lines: Vec::new(), quadras: Vec::new(), objects }
}

const TEN_YS: [i64; 10] = [100, 110, 120, 130, 140, 200, 210, 220, 230, 240];

#[test]
fn ten_lines_make_one_stanza() {
    let r = Recognizer::new(page(staff_lines(&TEN_YS), vec![], vec![]));
    let stanzas = r.detect_stanzas().unwrap();
    assert_eq!(stanzas.len(), 1);
    let s = &stanzas[0];
    assert_eq!(s.x, whole(0));
    assert_eq!(s.y, whole(100));
    assert_eq!(s.width, whole(1000));
    assert_eq!(s.height, whole(140));
    assert_eq!(s.scale, whole(10));
}

#[test]
fn twenty_lines_make_two_stanzas() {
    let mut ys: Vec<i64> = TEN_YS.to_vec();
    ys.extend([500, 510, 520, 530, 540, 600, 610, 620, 630, 640]);
    let r = Recognizer::new(page(staff_lines(&ys), vec![], vec![]));
    let stanzas = r.detect_stanzas().unwrap();
    assert_eq!(stanzas.len(), 2);
    assert_eq!(stanzas[0].y, whole(100));
    assert_eq!(stanzas[1].y, whole(500));
    assert_eq!(stanzas[1].scale, whole(10));
}

#[test]
fn no_five_fold_length_class_is_no_stanza() {
    let r = Recognizer::new(page(staff_lines(&[100, 110, 120]), vec![], vec![]));
    assert_eq!(r.detect_width().err(), Some(Error::NoStanza));
    assert_eq!(r.detect_stanzas().err(), Some(Error::NoStanza));
}

#[test]
fn width_detection_prefers_the_largest_class() {
    // five short lines and five long ones: both counts divide by five
    let mut horz = staff_lines(&[100, 110, 120, 130, 140]);
    for y in [300, 310, 320, 330, 340] {
        horz.push(HorzLine::new(whole(0), whole(400), whole(y)));
    }
    let r = Recognizer::new(page(horz, vec![], vec![]));
    assert_eq!(r.detect_width().unwrap(), whole(1000));
}

#[test]
fn short_trailing_group_is_an_empty_chunk() {
    let ys: Vec<i64> = (0..15).map(|k| 100 + 10 * k).collect();
    let r = Recognizer::new(page(staff_lines(&ys), vec![], vec![]));
    assert_eq!(r.detect_stanzas().err(), Some(Error::EmptyChunk));
}

#[test]
fn uneven_spacing_is_no_stanza() {
    let ys = [100, 110, 120, 130, 145, 200, 210, 220, 230, 240];
    let r = Recognizer::new(page(staff_lines(&ys), vec![], vec![]));
    assert_eq!(r.detect_stanzas().err(), Some(Error::NoStanza));
}

#[test]
fn barlines_are_sorted_and_the_closing_bar_dropped() {
    let mut s = Stanza::new(whole(0), whole(100), whole(1000), whole(140), whole(10));
    assert!(s.insert_bar(&VertLine::new(whole(600), whole(100), whole(240))));
    assert!(s.insert_bar(&VertLine::new(whole(50), whole(100), whole(240))));
    assert!(s.insert_bar(&VertLine::new(whole(990), whole(100), whole(240))));
    // a line that does not span the stanza is not a barline
    assert!(!s.insert_bar(&VertLine::new(whole(500), whole(100), whole(140))));
    s.sort_bars();
    let xs: Vec<Fixed> = s.bars.iter().map(|b| b.x).collect();
    assert_eq!(xs, vec![whole(50), whole(600)]);
    for w in xs.windows(2) {
        assert!(w[0].raw < w[1].raw);
    }
    for x in xs {
        assert!(s.x.raw <= x.raw && x.raw < s.x.raw + s.width.raw);
    }
}

fn barline(x: i64) -> VertLine {
    VertLine::new(whole(x), whole(100), whole(240))
}

#[test]
fn one_note_in_each_voice() {
    // A staff pair with two content bars, one stem near the upper staff
    // and one near the lower, and a notehead attached to each.
    let horz = staff_lines(&TEN_YS);
    let vert = vec![
        barline(50),
        barline(600),
        barline(990),
        VertLine::new(whole(500), whole(100), whole(140)),
        VertLine::new(whole(500), whole(200), whole(240)),
    ];
    let objects = vec![
        Object::new(Type::Head(4), Point::new(whole(490), whole(105))),
        Object::new(Type::Head(4), Point::new(whole(490), whole(205))),
    ];
    let mut r = Recognizer::new(page(horz, vert, objects));
    let pairs = r.process().unwrap();
    assert_eq!(pairs.len(), 1);
    let (c0, c1) = &pairs[0];
    // the lower voice reads from the lower staff, the upper from the upper
    assert_eq!(c0.notes, vec![Note::Note(vec![52], 480)]);
    assert_eq!(c1.notes, vec![Note::Note(vec![76], 480)]);
    // all consumed lines and symbols are gone from the parser
    assert_eq!(r.parser.objects.len(), 0);
    assert_eq!(r.parser.vert_lines.len(), 0);
}

#[test]
fn half_notehead_becomes_a_half_note() {
    let horz = staff_lines(&TEN_YS);
    let vert = vec![barline(50), barline(600), barline(990), VertLine::new(
        whole(500),
        whole(100),
        whole(140),
    )];
    let objects = vec![Object::new(Type::Head(2), Point::new(whole(490), whole(105)))];
    let mut r = Recognizer::new(page(horz, vert, objects));
    let pairs = r.process().unwrap();
    let (_, c1) = &pairs[0];
    assert_eq!(c1.notes, vec![Note::Note(vec![76], 960)]);
}

#[test]
fn unattached_notehead_is_a_recognition_failure() {
    let horz = staff_lines(&TEN_YS);
    let vert = vec![barline(50), barline(600), barline(990)];
    let objects = vec![Object::new(Type::Head(4), Point::new(whole(490), whole(105)))];
    let mut r = Recognizer::new(page(horz, vert, objects));
    assert_eq!(r.process().err(), Some(Error::RecognitionFailure));
}

#[test]
fn rests_and_wings_reach_the_collectors() {
    let horz = staff_lines(&TEN_YS);
    let vert = vec![barline(50), barline(600), barline(990), VertLine::new(
        whole(500),
        whole(100),
        whole(140),
    )];
    let objects = vec![
        Object::new(Type::Head(4), Point::new(whole(490), whole(105))),
        Object::new(Type::Wing(8), Point::new(whole(495), whole(120))),
        Object::new(Type::Rest(8), Point::new(whole(550), whole(120))),
    ];
    let mut r = Recognizer::new(page(horz, vert, objects));
    let pairs = r.process().unwrap();
    let (_, c1) = &pairs[0];
    // the wing reclassifies the pending quarter, then the rest follows
    assert_eq!(c1.notes, vec![Note::Note(vec![78], 240), Note::Rest(240)]);
}

#[test]
fn learned_head_size_admits_close_heads() {
    // the first notehead measures the stem gap and widens it by a tenth;
    // both heads then attach to the same stem
    let horz = staff_lines(&TEN_YS);
    let vert = vec![barline(50), barline(600), barline(990), VertLine::new(
        whole(520),
        whole(100),
        whole(140),
    )];
    let objects = vec![
        Object::new(Type::Head(4), Point::new(whole(490), whole(105))),
        Object::new(Type::Head(4), Point::new(whole(495), whole(115))),
    ];
    let mut r = Recognizer::new(page(horz, vert, objects));
    let pairs = r.process().unwrap();
    let (_, c1) = &pairs[0];
    assert_eq!(c1.notes, vec![Note::Note(vec![76, 72], 480)]);
}

#[test]
fn learned_head_size_rejects_far_heads() {
    // the gap learned from the first head is 30, widened to 33; the second
    // head sits 40 left of the only remaining stem, out of reach
    let horz = staff_lines(&TEN_YS);
    let vert = vec![
        barline(50),
        barline(990),
        VertLine::new(whole(520), whole(100), whole(140)),
        VertLine::new(whole(700), whole(100), whole(140)),
    ];
    let objects = vec![
        Object::new(Type::Head(4), Point::new(whole(490), whole(105))),
        Object::new(Type::Head(4), Point::new(whole(660), whole(115))),
    ];
    let mut r = Recognizer::new(page(horz, vert, objects));
    assert_eq!(r.process().err(), Some(Error::RecognitionFailure));
}

#[test]
fn symbol_left_of_every_bar_is_claimed_but_dropped() {
    let horz = staff_lines(&TEN_YS);
    let vert = vec![barline(50), barline(600), barline(990)];
    let objects = vec![Object::new(Type::Rest(8), Point::new(whole(20), whole(120)))];
    let mut r = Recognizer::new(page(horz, vert, objects));
    let pairs = r.process().unwrap();
    let (c0, c1) = &pairs[0];
    assert!(c0.notes.is_empty());
    assert!(c1.notes.is_empty());
    assert!(r.parser.objects.is_empty());
}

#[test]
fn stem_near_both_bands_is_a_recognition_failure() {
    let mut s = Stanza::new(whole(0), whole(100), whole(1000), whole(140), whole(10));
    assert!(s.insert_bar(&barline(50)));
    // a line spanning almost the whole stanza overlaps both the high and
    // the low band
    let tall = VertLine::new(whole(500), whole(100), whole(235));
    assert_eq!(s.put_stem(&tall).err(), Some(Error::RecognitionFailure));
}

#[test]
fn stem_near_no_band_is_left_alone() {
    let mut s = Stanza::new(whole(0), whole(100), whole(5000), whole(2000), whole(10));
    assert!(s.insert_bar(&VertLine::new(whole(50), whole(100), whole(2100))));
    // far from the top, the bottom, and the middle of a very tall stanza
    let stray = VertLine::new(whole(500), whole(400), whole(410));
    assert_eq!(s.put_stem(&stray), Ok(false));
}
