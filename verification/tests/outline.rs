use std::str::FromStr;
use steno_stroke::{Outline, Stroke};

#[test]
fn test_outline_raw_steno() {
    let mut outline = Outline::new();
    let stroke = Stroke::T() | Stroke::E() | Stroke::F() | Stroke::RT();
    outline.push(stroke);
    outline.push(stroke);

    assert_eq!(outline.raw_steno(), "TEFT/TEFT");
}

#[test]
fn test_outline_from_str() {
    let mut outline = Outline::new();
    let stroke = Stroke::T() | Stroke::E() | Stroke::F() | Stroke::RT();
    outline.push(stroke);
    outline.push(stroke);

    assert_eq!(
        Outline::from_str("TEFT/TEFT").expect("parse error"),
        outline
    );
}

#[test]
fn test_new_outline_is_empty() {
    let outline = Outline::new();
    assert!(outline.is_empty());
    assert!(!outline.is_multistroke());
    assert_eq!(outline.strokes().len(), 0);
    assert_eq!(outline.raw_steno(), "");
    assert_eq!(outline, Outline::default());
    assert_eq!(outline, Outline::from(Vec::new()));
}

#[test]
fn test_push_keeps_order_and_repeats() {
    let mut outline = Outline::new();
    outline.push(Stroke::K());
    assert!(!outline.is_empty());
    assert!(!outline.is_multistroke());
    outline.push(Stroke::A());
    assert!(outline.is_multistroke());
    outline.push(Stroke::K());
    assert_eq!(outline.strokes(), &[Stroke::K(), Stroke::A(), Stroke::K()]);
    assert_eq!(outline.raw_steno(), "K/A/K");
}

#[test]
fn test_pop() {
    let mut outline = Outline::from(vec![Stroke::K(), Stroke::A()]);
    assert_eq!(outline.pop(), Some(Stroke::A()));
    assert_eq!(outline, Outline::from(vec![Stroke::K()]));
    assert_eq!(outline.pop(), Some(Stroke::K()));
    assert!(outline.is_empty());
    assert_eq!(outline.pop(), None);
    assert!(outline.is_empty());
}

#[test]
fn test_split_of_two_strokes() {
    let first = Stroke::K() | Stroke::A() | Stroke::RT();
    let second = Stroke::T() | Stroke::E() | Stroke::F() | Stroke::RT();
    let mut outline = Outline::from(vec![first, second]);
    let last = outline.split();
    assert_eq!(last, Outline::from(vec![second]));
    assert_eq!(outline, Outline::from(vec![first]));
}

#[test]
fn test_split_of_one_stroke_leaves_nothing() {
    let mut outline = Outline::from(vec![Stroke::K()]);
    let last = outline.split();
    assert_eq!(last, Outline::from(vec![Stroke::K()]));
    assert!(outline.is_empty());
}

#[test]
fn test_compact_of_three_strokes() {
    let mut outline = Outline::from(vec![Stroke::K(), Stroke::A(), Stroke::RT()]);
    outline.compact();
    assert_eq!(outline, Outline::from(vec![Stroke::RT()]));
    assert!(!outline.is_multistroke());
}

#[test]
fn test_compact_of_one_stroke_changes_nothing() {
    let mut outline = Outline::from(vec![Stroke::K()]);
    outline.compact();
    assert_eq!(outline, Outline::from(vec![Stroke::K()]));
}

#[test]
fn test_outline_equality_is_by_sequence() {
    let ka = Outline::from(vec![Stroke::K(), Stroke::A()]);
    let ak = Outline::from(vec![Stroke::A(), Stroke::K()]);
    let k = Outline::from(vec![Stroke::K()]);
    assert_ne!(ka, ak);
    assert_ne!(ka, k);
    assert_ne!(k, ka);
    assert_eq!(ka, ka.clone());
    assert_eq!(ka, Outline::from(vec![Stroke::K(), Stroke::A()]));
}

#[test]
fn test_outline_from_str_pieces() {
    assert_eq!(
        Outline::from_str("").expect("parse error"),
        Outline::from(vec![Stroke::empty()])
    );
    assert_eq!(
        Outline::from_str("/").expect("parse error"),
        Outline::from(vec![Stroke::empty(), Stroke::empty()])
    );
    assert_eq!(
        Outline::from_str("KAT").expect("parse error"),
        Outline::from(vec![Stroke::K() | Stroke::A() | Stroke::RT()])
    );
    assert_eq!(
        Outline::from_str("S/S").expect("parse error"),
        Outline::from(vec![Stroke::S(), Stroke::S()])
    );
    assert_eq!(
        Outline::from_str("-S/S/AS").expect("parse error"),
        Outline::from(vec![Stroke::RS(), Stroke::S(), Stroke::A() | Stroke::RS()])
    );
    assert_eq!(
        Outline::from_str("K/").expect("parse error"),
        Outline::from(vec![Stroke::K(), Stroke::empty()])
    );
}

#[test]
fn test_outline_round_trip() {
    let outline = Outline::from(vec![
        Stroke::S() | Stroke::RP(),
        Stroke::RP() | Stroke::RT(),
        Stroke::all(),
        Stroke::NUM2() | Stroke::Z(),
    ]);
    let written = outline.raw_steno();
    assert_eq!(written, "S-P/-PT/#STKPWHRAO*EUFRPBLGTSDZ/#TZ");
    assert_eq!(Outline::from_str(&written).expect("parse error"), outline);
}
