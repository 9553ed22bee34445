use vt_push_parser::ascii::decode_string;

#[test]
fn test_decode_string_unclosed_control_sequence() {
    // An unclosed name does not get a '>' added.
    let decoded = decode_string("<ESC>[<u");
    assert_eq!(decoded, vec![0x1B, 0x5B, 0x3C, 0x75]);
}

#[test]
fn test_decode_string_closed_control_sequence() {
    let decoded = decode_string("<ESC>[>u");
    assert_eq!(decoded, vec![0x1B, 0x5B, 0x3E, 0x75]);
}

#[test]
fn test_decode_string_unrecognized_closed() {
    let decoded = decode_string("<foo>");
    assert_eq!(decoded, vec![0x3C, 0x66, 0x6F, 0x6F, 0x3E]);
}

#[test]
fn test_decode_string_unrecognized_unclosed() {
    let decoded = decode_string("<bar");
    assert_eq!(decoded, vec![0x3C, 0x62, 0x61, 0x72]);
}

#[test]
fn test_decode_string_recognized_control() {
    let decoded = decode_string("<ESC>");
    assert_eq!(decoded, vec![0x1B]);

    let decoded = decode_string("<CR><LF>");
    assert_eq!(decoded, vec![0x0D, 0x0A]);
}

#[test]
fn test_decode_string_hex_bytes() {
    let decoded = decode_string("<1B>[A");
    assert_eq!(decoded, vec![0x1B, 0x5B, 0x41]);
}

#[test]
fn decode_string_names_fold_case_and_aliases() {
    assert_eq!(decode_string("<esc><Tab><HT><sp><del>"), vec![0x1B, 9, 9, 0x20, 0x7F]);
    // Two hex digits win over a control name.
    assert_eq!(decode_string("<FF>"), vec![0xFF]);
    assert_eq!(decode_string("<>x"), vec![0x3C, 0x3E, 0x78]);
    assert_eq!(decode_string("é<NUL>"), vec![0xC3, 0xA9, 0]);
}
