use vt_push_parser::input::{
    ALT, CTRL, MatchResult, Modifier, SHIFT, invalid_utf8, pack, pack_mod, utf8_1, utf8_2, utf8_3,
    utf8_4,
};

#[test]
fn packs_chars_with_modifiers() {
    assert_eq!(pack_mod(0x41, CTRL), 0x0400_0041);
    assert_eq!(pack('a' as u32, true), 0x0200_0061);
    assert_eq!(pack('a' as u32, false), 0x61);
}

#[test]
fn decodes_utf8_keys() {
    assert_eq!(utf8_1(false, b'x'), MatchResult::Match { length: 1, what: 'x' as u32 });
    assert_eq!(utf8_1(true, b'x'), MatchResult::Match { length: 2, what: 0x0200_0078 });
    assert_eq!(utf8_2(false, &[0xC3, 0xA9]), MatchResult::Match { length: 2, what: 0xE9 });
    assert_eq!(utf8_2(false, &[0xC3]), MatchResult::PendingMatch);
    assert_eq!(utf8_3(false, "✅".as_bytes()), MatchResult::Match { length: 3, what: 0x2705 });
    assert_eq!(
        utf8_4(true, "🤖".as_bytes()),
        MatchResult::Match { length: 5, what: 0x0201_F916 }
    );
    assert_eq!(utf8_4(true, &[0xF0, 0x9F]), MatchResult::PendingMatch);
    // A surrogate is no char: the replacement character, without ALT.
    assert_eq!(utf8_3(true, &[0xED, 0xA0, 0x80]), MatchResult::Match { length: 4, what: 0xFFFD });
    assert_eq!(invalid_utf8(0x80), MatchResult::Match { length: 1, what: 0xFFFD });
}

#[test]
fn modifier_sets() {
    let m = Modifier::from_bits(SHIFT).union(Modifier::from_bits(ALT));
    assert_eq!(m.bits(), 3);
    assert!(m.contains(Modifier::from_bits(ALT)));
    assert!(!m.contains(Modifier::from_bits(CTRL)));
    assert!(Modifier::empty().contains(Modifier::empty()));
}
