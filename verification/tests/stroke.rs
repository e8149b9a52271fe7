use std::str::FromStr;
use steno_stroke::{KeyPress, Stroke};

#[test]
fn test_stroke_raw_steno() {
    assert_eq!(Stroke::all().raw_steno(), "#STKPWHRAO*EUFRPBLGTSDZ");
}

#[test]
fn test_stroke_from_str() {
    let stroke = Stroke::T() | Stroke::E() | Stroke::F() | Stroke::RT();
    assert_eq!(Stroke::from_str("TEFT").expect("parse error"), stroke);
}

#[test]
fn test_stroke_from_str_right_t() {
    let stroke = Stroke::K() | Stroke::A() | Stroke::RT();
    assert_eq!(Stroke::from_str("KAT").expect("parse error"), stroke);
}

#[test]
fn test_stroke_from_str_dash() {
    let stroke = Stroke::S() | Stroke::RP() | Stroke::RT();
    assert_eq!(Stroke::from_str("S-PT").expect("parse error"), stroke);
}

#[test]
fn test_ambiguous_raw_steno() {
    let stroke = Stroke::RP() | Stroke::RT();
    assert_eq!(stroke.raw_steno(), "-PT");

    let stroke = Stroke::S() | Stroke::RP();
    assert_eq!(stroke.raw_steno(), "S-P");

    // Has a vowel so doesn't need a -
    let stroke = Stroke::H() | Stroke::O() | Stroke::L() | Stroke::RT();
    assert_eq!(stroke.raw_steno(), "HOLT");

    let stroke = Stroke::STAR() | Stroke::RS();
    assert_eq!(stroke.raw_steno(), "*S");
}

#[test]
fn test_stroke_from_str_star() {
    let stroke = Stroke::W() | Stroke::STAR() | Stroke::RR();
    assert_eq!(Stroke::from_str("W*R").expect("parse error"), stroke);
}

#[test]
fn test_stroke_from_str_number() {
    let stroke = Stroke::NUM2() | Stroke::Z();
    assert_eq!(Stroke::from_str("2-Z").expect("parse error"), stroke);
}

#[test]
fn test_number_stroke_raw_steno() {
    assert_eq!((Stroke::NUM2() | Stroke::Z()).raw_steno(), "#TZ");
}

#[test]
fn test_is_number_non_number() {
    let stroke = Stroke::NUM1() | Stroke::NUM2() | Stroke::NUM3() | Stroke::Z();
    assert!(!stroke.is_number());
}

#[test]
fn test_is_number_on_number() {
    let stroke = Stroke::NUM1() | Stroke::NUM2() | Stroke::NUM3();
    assert!(stroke.is_number());
}

#[test]
fn test_key_bits_follow_steno_order() {
    let keys = [
        Stroke::HASH(),
        Stroke::S(),
        Stroke::T(),
        Stroke::K(),
        Stroke::P(),
        Stroke::W(),
        Stroke::H(),
        Stroke::R(),
        Stroke::A(),
        Stroke::O(),
        Stroke::STAR(),
        Stroke::E(),
        Stroke::U(),
        Stroke::F(),
        Stroke::RR(),
        Stroke::RP(),
        Stroke::B(),
        Stroke::L(),
        Stroke::G(),
        Stroke::RT(),
        Stroke::RS(),
        Stroke::D(),
        Stroke::Z(),
    ];
    for (place, key) in keys.iter().enumerate() {
        assert_eq!(key.bits(), 1u32 << place);
    }
    assert_eq!(Stroke::empty().bits(), 0);
    assert_eq!(Stroke::all().bits(), 0x7f_ffff);
}

#[test]
fn test_group_masks() {
    assert_eq!(Stroke::LEFT().bits(), 0b00000000000001111111110);
    assert_eq!(Stroke::RGHT().bits(), 0b11111111111110000000000);
    assert_eq!(Stroke::NUM1().bits(), 0b00000000000000000000011);
    assert_eq!(Stroke::NUM2().bits(), 0b00000000000000000000101);
    assert_eq!(Stroke::NUM3().bits(), 0b00000000000000000010001);
    assert_eq!(Stroke::NUM4().bits(), 0b00000000000000001000001);
    assert_eq!(Stroke::NUM5().bits(), 0b00000000000000100000001);
    assert_eq!(Stroke::NUM0().bits(), 0b00000000000001000000001);
    assert_eq!(Stroke::NUM6().bits(), 0b00000000010000000000001);
    assert_eq!(Stroke::NUM7().bits(), 0b00000001000000000000001);
    assert_eq!(Stroke::NUM8().bits(), 0b00000100000000000000001);
    assert_eq!(Stroke::NUM9().bits(), 0b00010000000000000000001);
    assert_eq!(Stroke::NUM().bits(), 0b00010101010001101010111);
}

#[test]
fn test_banks_do_not_overlap_and_cover_all() {
    assert!((Stroke::LEFT() & Stroke::RGHT()).is_empty());
    assert_eq!(Stroke::LEFT() | Stroke::RGHT() | Stroke::HASH(), Stroke::all());
}

#[test]
fn test_number_mask_is_the_union_of_the_digits() {
    let union = Stroke::NUM0()
        | Stroke::NUM1()
        | Stroke::NUM2()
        | Stroke::NUM3()
        | Stroke::NUM4()
        | Stroke::NUM5()
        | Stroke::NUM6()
        | Stroke::NUM7()
        | Stroke::NUM8()
        | Stroke::NUM9();
    assert_eq!(union, Stroke::NUM());
}

#[test]
fn test_from_bits() {
    assert_eq!(Stroke::from_bits(0), Some(Stroke::empty()));
    assert_eq!(Stroke::from_bits(0b101), Some(Stroke::NUM2()));
    assert_eq!(Stroke::from_bits(0x7f_ffff), Some(Stroke::all()));
    assert_eq!(Stroke::from_bits(0x80_0000), None);
    assert_eq!(Stroke::from_bits(u32::MAX), None);
}

#[test]
fn test_set_algebra() {
    let a = Stroke::S() | Stroke::T() | Stroke::A();
    let b = Stroke::T() | Stroke::A() | Stroke::Z();
    assert_eq!((a | b).bits(), 0b10000000000000100000110);
    assert_eq!((a & b).bits(), 0b00000000000000100000100);
    assert_eq!((a - b).bits(), 0b00000000000000000000010);
    assert_eq!((b - a).bits(), 0b10000000000000000000000);
    assert!(a.contains(Stroke::S() | Stroke::A()));
    assert!(!a.contains(Stroke::Z()));
    assert!(!a.contains(b));
    assert!(a.contains(Stroke::empty()));
    assert!(Stroke::all().contains(a));
    assert!(!a.is_empty());
    assert!((a - a).is_empty());
}

#[test]
fn test_insert_remove_set() {
    let mut stroke = Stroke::empty();
    stroke.insert(Stroke::K());
    stroke.insert(Stroke::A());
    assert_eq!(stroke, Stroke::K() | Stroke::A());
    stroke.insert(Stroke::K());
    assert_eq!(stroke, Stroke::K() | Stroke::A());
    stroke.remove(Stroke::K());
    assert_eq!(stroke, Stroke::A());
    stroke.remove(Stroke::Z());
    assert_eq!(stroke, Stroke::A());
    stroke.set(Stroke::RT(), true);
    assert_eq!(stroke, Stroke::A() | Stroke::RT());
    stroke.set(Stroke::A(), false);
    assert_eq!(stroke, Stroke::RT());
}

#[test]
fn test_is_star() {
    assert!(Stroke::STAR().is_star());
    assert!(!Stroke::empty().is_star());
    assert!(!(Stroke::STAR() | Stroke::S()).is_star());
    assert!(!Stroke::E().is_star());
}

#[test]
fn test_is_number_edges() {
    assert!(Stroke::empty().is_number());
    assert!(Stroke::HASH().is_number());
    assert!(Stroke::NUM().is_number());
    assert!(Stroke::RT().is_number());
    assert!(!Stroke::K().is_number());
    assert!(!Stroke::STAR().is_number());
    assert!(!Stroke::all().is_number());
    for bits in 0..0x80_0000u32 {
        if bits % 4099 == 0 || bits.count_ones() == 1 {
            let stroke = Stroke::from_bits(bits).expect("within the layout");
            assert_eq!(stroke.is_number(), bits & !0b00010101010001101010111 == 0);
        }
    }
}

#[test]
fn test_set_keypress_table() {
    let table = [
        (KeyPress::KeyEsc, Stroke::empty()),
        (KeyPress::KeyA, Stroke::S()),
        (KeyPress::KeyB, Stroke::empty()),
        (KeyPress::KeyC, Stroke::A()),
        (KeyPress::KeyD, Stroke::W()),
        (KeyPress::KeyE, Stroke::P()),
        (KeyPress::KeyF, Stroke::R()),
        (KeyPress::KeyG, Stroke::STAR()),
        (KeyPress::KeyH, Stroke::STAR()),
        (KeyPress::KeyI, Stroke::RP()),
        (KeyPress::KeyJ, Stroke::RR()),
        (KeyPress::KeyK, Stroke::B()),
        (KeyPress::KeyL, Stroke::G()),
        (KeyPress::KeyM, Stroke::U()),
        (KeyPress::KeyN, Stroke::E()),
        (KeyPress::KeyO, Stroke::L()),
        (KeyPress::KeyP, Stroke::RT()),
        (KeyPress::KeyQ, Stroke::S()),
        (KeyPress::KeyR, Stroke::H()),
        (KeyPress::KeyS, Stroke::K()),
        (KeyPress::KeyT, Stroke::STAR()),
        (KeyPress::KeyU, Stroke::F()),
        (KeyPress::KeyV, Stroke::O()),
        (KeyPress::KeyW, Stroke::T()),
        (KeyPress::KeyX, Stroke::empty()),
        (KeyPress::KeyY, Stroke::STAR()),
        (KeyPress::KeyZ, Stroke::empty()),
        (KeyPress::Key1, Stroke::HASH()),
        (KeyPress::Key2, Stroke::HASH()),
        (KeyPress::Key3, Stroke::HASH()),
        (KeyPress::Key4, Stroke::HASH()),
        (KeyPress::Key5, Stroke::HASH()),
        (KeyPress::Key6, Stroke::HASH()),
        (KeyPress::Key7, Stroke::HASH()),
        (KeyPress::Key8, Stroke::HASH()),
        (KeyPress::Key9, Stroke::HASH()),
        (KeyPress::Key0, Stroke::HASH()),
        (KeyPress::KeySpace, Stroke::empty()),
        (KeyPress::KeyBracketLeft, Stroke::D()),
        (KeyPress::KeySemicolon, Stroke::RS()),
        (KeyPress::KeyBackslash, Stroke::Z()),
    ];
    for (key, expected) in table.iter() {
        let mut stroke = Stroke::empty();
        stroke.set_keypress(key);
        assert_eq!(stroke, *expected);

        let mut held = Stroke::K() | Stroke::L();
        held.set_keypress(key);
        assert_eq!(held, Stroke::K() | Stroke::L() | *expected);
    }
}

#[test]
fn test_set_keypress_builds_a_chord() {
    let mut stroke = Stroke::empty();
    for key in [KeyPress::KeyW, KeyPress::KeyN, KeyPress::KeyU, KeyPress::KeyP, KeyPress::KeyW] {
        stroke.set_keypress(&key);
    }
    assert_eq!(stroke.raw_steno(), "TEFT");
}

#[test]
fn test_render_single_keys() {
    assert_eq!(Stroke::empty().raw_steno(), "");
    assert_eq!(Stroke::HASH().raw_steno(), "#");
    assert_eq!(Stroke::S().raw_steno(), "S");
    assert_eq!(Stroke::RS().raw_steno(), "-S");
    assert_eq!(Stroke::T().raw_steno(), "T");
    assert_eq!(Stroke::RT().raw_steno(), "-T");
    assert_eq!(Stroke::P().raw_steno(), "P");
    assert_eq!(Stroke::RP().raw_steno(), "-P");
    assert_eq!(Stroke::R().raw_steno(), "R");
    assert_eq!(Stroke::RR().raw_steno(), "-R");
    assert_eq!(Stroke::STAR().raw_steno(), "*");
    assert_eq!(Stroke::F().raw_steno(), "F");
    assert_eq!(Stroke::Z().raw_steno(), "Z");
}

#[test]
fn test_dash_stands_between_star_and_e() {
    assert_eq!((Stroke::S() | Stroke::T() | Stroke::RS() | Stroke::RT()).raw_steno(), "ST-TS");
    assert_eq!((Stroke::K() | Stroke::F() | Stroke::RR() | Stroke::Z()).raw_steno(), "K-FRZ");
    assert_eq!((Stroke::K() | Stroke::F() | Stroke::Z()).raw_steno(), "KFZ");
    assert_eq!((Stroke::E() | Stroke::RS()).raw_steno(), "ES");
    assert_eq!((Stroke::U() | Stroke::RP()).raw_steno(), "UP");
    assert_eq!((Stroke::A() | Stroke::RR()).raw_steno(), "AR");
    assert_eq!((Stroke::HASH() | Stroke::RT()).raw_steno(), "#-T");
}

#[test]
fn test_parse_passes_over_unknown_characters() {
    assert_eq!(Stroke::from_str("").expect("parse error"), Stroke::empty());
    assert_eq!(Stroke::from_str("xyz ,.").expect("parse error"), Stroke::empty());
    assert_eq!(Stroke::from_str("k").expect("parse error"), Stroke::empty());
    assert_eq!(Stroke::from_str("K?A!T").expect("parse error"), Stroke::K() | Stroke::A() | Stroke::RT());
    assert_eq!(Stroke::from_str("é*").expect("parse error"), Stroke::STAR());
    assert_eq!(Stroke::from_str("-").expect("parse error"), Stroke::empty());
}

#[test]
fn test_parse_resolves_banks() {
    assert_eq!(Stroke::from_str("S").expect("parse error"), Stroke::S());
    assert_eq!(Stroke::from_str("-S").expect("parse error"), Stroke::RS());
    assert_eq!(Stroke::from_str("SS").expect("parse error"), Stroke::S() | Stroke::RS());
    assert_eq!(Stroke::from_str("TT").expect("parse error"), Stroke::T() | Stroke::RT());
    assert_eq!(Stroke::from_str("PP").expect("parse error"), Stroke::P() | Stroke::RP());
    assert_eq!(Stroke::from_str("RR").expect("parse error"), Stroke::R() | Stroke::RR());
    assert_eq!(Stroke::from_str("TS").expect("parse error"), Stroke::T() | Stroke::RS());
    assert_eq!(Stroke::from_str("#S").expect("parse error"), Stroke::HASH() | Stroke::S());
    assert_eq!(Stroke::from_str("ZS").expect("parse error"), Stroke::Z() | Stroke::RS());
    assert_eq!(Stroke::from_str("ES").expect("parse error"), Stroke::E() | Stroke::RS());
    assert_eq!(Stroke::from_str("S-S").expect("parse error"), Stroke::S() | Stroke::RS());
    assert_eq!(Stroke::from_str("-ST").expect("parse error"), Stroke::RS() | Stroke::RT());
}

#[test]
fn test_parse_digits() {
    assert_eq!(Stroke::from_str("0").expect("parse error"), Stroke::NUM0());
    assert_eq!(Stroke::from_str("1").expect("parse error"), Stroke::NUM1());
    assert_eq!(Stroke::from_str("2").expect("parse error"), Stroke::NUM2());
    assert_eq!(Stroke::from_str("3").expect("parse error"), Stroke::NUM3());
    assert_eq!(Stroke::from_str("4").expect("parse error"), Stroke::NUM4());
    assert_eq!(Stroke::from_str("5").expect("parse error"), Stroke::NUM5());
    assert_eq!(Stroke::from_str("6").expect("parse error"), Stroke::NUM6());
    assert_eq!(Stroke::from_str("7").expect("parse error"), Stroke::NUM7());
    assert_eq!(Stroke::from_str("8").expect("parse error"), Stroke::NUM8());
    assert_eq!(Stroke::from_str("9").expect("parse error"), Stroke::NUM9());
    assert_eq!(Stroke::from_str("12").expect("parse error"), Stroke::NUM1() | Stroke::NUM2());
    assert_eq!(
        Stroke::from_str("1T").expect("parse error"),
        Stroke::HASH() | Stroke::S() | Stroke::T()
    );
    assert_eq!(
        Stroke::from_str("2T").expect("parse error"),
        Stroke::HASH() | Stroke::T() | Stroke::RT()
    );
}

#[test]
fn test_round_trip_of_every_key() {
    for place in 0..23 {
        let stroke = Stroke::from_bits(1u32 << place).expect("within the layout");
        assert_eq!(Stroke::from_str(&stroke.raw_steno()).expect("parse error"), stroke);
    }
}

#[test]
fn test_round_trip_of_every_pair_of_keys() {
    for first in 0..23 {
        for second in 0..23 {
            let bits = (1u32 << first) | (1u32 << second);
            let stroke = Stroke::from_bits(bits).expect("within the layout");
            assert_eq!(Stroke::from_str(&stroke.raw_steno()).expect("parse error"), stroke);
        }
    }
}

#[test]
fn test_round_trip_of_many_strokes() {
    let mut bits: u32 = 0;
    while bits < 0x80_0000 {
        let stroke = Stroke::from_bits(bits).expect("within the layout");
        let written = stroke.raw_steno();
        assert_eq!(Stroke::from_str(&written).expect("parse error"), stroke);
        assert_eq!(Stroke::from_str(&written).expect("parse error").raw_steno(), written);
        bits += 2039;
    }
}
