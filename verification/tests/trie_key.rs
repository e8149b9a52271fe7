use radix_trie::{Trie, TrieKey};
use steno_stroke::{Outline, Stroke};

#[test]
fn test_encode_bytes_is_big_endian_per_stroke() {
    assert_eq!(Outline::new().encode_bytes(), Vec::<u8>::new());
    assert_eq!(
        Outline::from(vec![Stroke::HASH()]).encode_bytes(),
        vec![0, 0, 0, 1]
    );
    assert_eq!(
        Outline::from(vec![Stroke::Z()]).encode_bytes(),
        vec![0, 0x40, 0, 0]
    );
    assert_eq!(
        Outline::from(vec![Stroke::all()]).encode_bytes(),
        vec![0, 0x7f, 0xff, 0xff]
    );
    let teft = Stroke::T() | Stroke::E() | Stroke::F() | Stroke::RT();
    assert_eq!(
        Outline::from(vec![teft, Stroke::A()]).encode_bytes(),
        vec![0x00, 0x08, 0x28, 0x04, 0x00, 0x00, 0x01, 0x00]
    );
}

#[test]
fn test_encode_bytes_is_what_the_trie_gives_each_bit_vector() {
    let strokes = vec![Stroke::K() | Stroke::A() | Stroke::RT(), Stroke::all(), Stroke::empty()];
    let mut expected = Vec::new();
    for stroke in strokes.iter() {
        expected.extend(stroke.bits().encode_bytes());
    }
    assert_eq!(Outline::from(strokes).encode_bytes(), expected);
}

#[test]
fn test_encoding_of_a_start_is_a_start_of_the_encoding() {
    let strokes = vec![
        Stroke::K() | Stroke::A() | Stroke::RT(),
        Stroke::T() | Stroke::E() | Stroke::F() | Stroke::RT(),
        Stroke::STAR(),
    ];
    let whole = Outline::from(strokes.clone()).encode_bytes();
    assert_eq!(whole.len(), 12);
    for n in 0..strokes.len() {
        let start = Outline::from(strokes[..n].to_vec()).encode_bytes();
        assert_eq!(start.len(), 4 * n);
        assert!(start.len() < whole.len());
        assert_eq!(&whole[..start.len()], &start[..]);
    }
}

#[test]
fn test_encoding_of_another_outline_is_no_start() {
    let a = Outline::from(vec![Stroke::HASH()]).encode_bytes();
    let b = Outline::from(vec![Stroke::S(), Stroke::HASH()]).encode_bytes();
    assert!(!b.starts_with(&a));
    assert!(!a.starts_with(&b));

    // the bytes 00 00 00 01 stand in `d`, but not at the place of a stroke
    let c = Outline::from(vec![Stroke::A()]).encode_bytes();
    let d = Outline::from(vec![Stroke::empty(), Stroke::empty()]).encode_bytes();
    assert_eq!(c, vec![0, 0, 1, 0]);
    assert!(!d.starts_with(&c));
}

struct OutlineKey(Outline);

impl PartialEq for OutlineKey {
    fn eq(&self, other: &OutlineKey) -> bool {
        self.0 == other.0
    }
}

impl Eq for OutlineKey {}

impl TrieKey for OutlineKey {
    fn encode_bytes(&self) -> Vec<u8> {
        self.0.encode_bytes()
    }
}

#[test]
fn test_outlines_key_a_trie() {
    let kat = Stroke::K() | Stroke::A() | Stroke::RT();
    let log = Stroke::L() | Stroke::O() | Stroke::G();
    let mut trie = Trie::new();
    trie.insert(OutlineKey(Outline::from(vec![kat])), "cat");
    trie.insert(OutlineKey(Outline::from(vec![kat, log])), "catalog");
    trie.insert(OutlineKey(Outline::from(vec![log])), "log");

    assert_eq!(trie.get(&OutlineKey(Outline::from(vec![kat]))), Some(&"cat"));
    assert_eq!(trie.get(&OutlineKey(Outline::from(vec![kat, log]))), Some(&"catalog"));
    assert_eq!(trie.get(&OutlineKey(Outline::from(vec![log, kat]))), None);

    let longest = trie.get_ancestor_value(&OutlineKey(Outline::from(vec![kat, log, kat])));
    assert_eq!(longest, Some(&"catalog"));
}
