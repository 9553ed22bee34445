use vt_push_parser::capture::{VTCaptureEvent, VTCapturePushParser, VTInputCapture};
use vt_push_parser::event::{EscInvalid, VTEvent, VTIntermediate};
use vt_push_parser::parser::VTPushParser;
use vt_push_parser::signature::VTEscapeSignature;
use vt_push_parser::{
    CAN, SUB, VT_PARSER_DCS_COLON_PARAMS, VT_PARSER_INTEREST_ALL, VT_PARSER_INTEREST_CSI, VT_PARSER_INTEREST_DCS,
    VT_PARSER_INTEREST_DEFAULT, VT_PARSER_INTEREST_ESCAPE_RECOVERY, VT_PARSER_INTEREST_NONE,
    VT_PARSER_INTEREST_OSC, VT_PARSER_INTEREST_OTHER,
};

const CONTROL_NAMES: [&str; 32] = [
    "NUL", "SOH", "STX", "ETX", "EOT", "ENQ", "ACK", "BEL", "BS", "TAB", "LF", "VT", "FF", "CR",
    "SO", "SI", "DLE", "DC1", "DC2", "DC3", "DC4", "NAK", "SYN", "ETB", "CAN", "EM", "SUB", "ESC",
    "FS", "GS", "RS", "US",
];

fn control_name(c: char) -> Option<String> {
    if (c as u32) < 32 {
        Some(format!("<{}>", CONTROL_NAMES[c as usize]))
    } else if c as u32 == 127 {
        Some("<DEL>".to_string())
    } else {
        None
    }
}

fn text(bytes: &[u8]) -> String {
    let mut s = String::new();
    for chunk in bytes.utf8_chunks() {
        for c in chunk.valid().chars() {
            match control_name(c) {
                Some(n) => s.push_str(&n),
                None => s.push(c),
            }
        }
        if !chunk.invalid().is_empty() {
            s.push('<');
            for b in chunk.invalid() {
                s.push_str(&format!("{b:02x}"));
            }
            s.push('>');
        }
    }
    s
}

fn ints(i: &VTIntermediate) -> String {
    let mut s = String::from("'");
    for b in i.to_vec() {
        s.push(b as char);
    }
    s.push('\'');
    s
}

fn byte_char(b: u8) -> String {
    control_name(b as char).unwrap_or_else(|| (b as char).to_string())
}

/// An event in the notation of the expected traces.
fn show(e: &VTEvent) -> String {
    match e {
        VTEvent::Raw(v) => format!("Raw('{}')", text(v)),
        VTEvent::C0(b) => format!("C0({b:02x})"),
        VTEvent::Esc(esc) => {
            let mut s = String::from("Esc(");
            if let Some(p) = esc.private {
                s.push_str(&format!("{:?}, ", p as char));
            }
            s.push_str(&format!("{}, {})", ints(&esc.intermediates), byte_char(esc.final_byte)));
            s
        }
        VTEvent::EscInvalid(i) => {
            let bytes = match *i {
                EscInvalid::One(a) => vec![a],
                EscInvalid::Two(a, b) => vec![a, b],
                EscInvalid::Three(a, b, c) => vec![a, b, c],
                EscInvalid::Four(a, b, c, d) => vec![a, b, c, d],
            };
            let mut s = String::from("EscInvalid(1B");
            for b in bytes {
                s.push_str(&format!(" {b:02X}"));
            }
            s.push(')');
            s
        }
        VTEvent::Ss2(x) => format!("Ss2({})", control_name(x.char as char).unwrap_or(format!("{:?}", x.char as char))),
        VTEvent::Ss3(x) => format!("Ss3({})", control_name(x.char as char).unwrap_or(format!("{:?}", x.char as char))),
        VTEvent::Csi(c) => {
            let mut s = String::from("Csi(");
            if let Some(p) = c.private {
                s.push_str(&format!("{:?}, ", p as char));
            }
            for p in &c.params.params {
                s.push_str(&format!("'{}', ", text(p)));
            }
            s.push_str(&format!("{}, {:?})", ints(&c.intermediates), c.final_byte as char));
            s
        }
        VTEvent::DcsStart(d) => {
            let mut s = String::from("DcsStart(");
            if let Some(p) = d.private {
                s.push_str(&format!("{:?}", p as char));
            }
            for p in &d.params.params {
                s.push_str(&format!(", '{}'", text(p)));
            }
            s.push_str(&format!(", {}, {})", ints(&d.intermediates), d.final_byte as char));
            s
        }
        VTEvent::DcsData(v) => format!("DcsData('{}')", text(v)),
        VTEvent::DcsEnd(v) => format!("DcsEnd('{}')", text(v)),
        VTEvent::DcsCancel => "DcsCancel".to_string(),
        VTEvent::OscStart => "OscStart".to_string(),
        VTEvent::OscData(v) => format!("OscData('{}')", text(v)),
        VTEvent::OscEnd { data, .. } => format!("OscEnd('{}')", text(data)),
        VTEvent::OscCancel => "OscCancel".to_string(),
    }
}

fn show_capture(e: &VTCaptureEvent) -> String {
    match e {
        VTCaptureEvent::VTEvent(e) => format!("VTEvent({})", show(e)),
        VTCaptureEvent::Capture(v) => format!("Capture({v:?})"),
        VTCaptureEvent::CaptureEnd => "CaptureEnd".to_string(),
    }
}

fn collect_events(input: &[u8]) -> Vec<String> {
    let mut out = Vec::new();
    let mut p = VTPushParser::new();
    p.feed_with(input, &mut |ev: VTEvent| out.push(show(&ev)));
    out
}

fn collect_debug(input: &[u8]) -> Vec<String> {
    collect_events(input)
}

fn decode_lines(input: &[u8]) -> String {
    let mut result = String::new();
    VTPushParser::decode_buffer(input, &mut |e: VTEvent| result.push_str(&format!("{}\n", show(&e))));
    result
}

fn events_with(interest: u8, chunks: &[&[u8]]) -> Vec<VTEvent> {
    let mut p = VTPushParser::new_with_interest(interest);
    let mut out = Vec::new();
    for c in chunks {
        out.extend(p.feed(c));
    }
    out
}

/// A trace with adjacent body pieces of one stream merged.
fn merged(evs: &[VTEvent]) -> Vec<String> {
    let mut out: Vec<String> = Vec::new();
    let mut body: Option<(u8, Vec<u8>)> = None;
    for e in evs {
        let piece = match e {
            VTEvent::Raw(v) => Some((0, v)),
            VTEvent::DcsData(v) => Some((1, v)),
            VTEvent::OscData(v) => Some((2, v)),
            _ => None,
        };
        match piece {
            Some((k, v)) => match &mut body {
                Some((bk, bv)) if *bk == k => bv.extend_from_slice(v),
                _ => {
                    if let Some((bk, bv)) = body.take() {
                        out.push(format!("{bk}:{}", text(&bv)));
                    }
                    body = Some((k, v.clone()));
                }
            },
            None => {
                if let Some((bk, bv)) = body.take() {
                    out.push(format!("{bk}:{}", text(&bv)));
                }
                out.push(show(e));
            }
        }
    }
    if let Some((bk, bv)) = body.take() {
        out.push(format!("{bk}:{}", text(&bv)));
    }
    out
}

fn encode_all(evs: &[VTEvent]) -> Vec<u8> {
    let mut out = Vec::new();
    for e in evs {
        e.encode_to_vec(&mut out);
    }
    out
}

#[test]
fn lib_test_edge_cases() {
    assert_eq!(decode_lines(&[]).trim(), "");
    assert_eq!(decode_lines(b"\x1b").trim(), "");
    assert_eq!(decode_lines(b"\x1b[").trim(), "");
    assert_eq!(decode_lines(b"\x1bP").trim(), "");
    // An OSC left open is cancelled when the stream ends.
    assert_eq!(decode_lines(b"\x1b]").trim(), "OscStart\nOscCancel");
}

#[test]
fn lib_test_streaming_behavior() {
    let mut parser = VTPushParser::new();
    let mut result = String::new();
    let mut callback = |vt_input: VTEvent| {
        result.push_str(&format!("{}\n", show(&vt_input)));
    };

    parser.feed_with(b"\x1bP1;2;3 |", &mut callback);
    parser.feed_with(b"data", &mut callback);
    parser.feed_with(b" more", &mut callback);
    parser.feed_with(b"\x1b\\", &mut callback);

    assert_eq!(
        result.trim(),
        "DcsStart(, '1', '2', '3', ' ', |)\nDcsData('data')\nDcsData(' more')\nDcsEnd('')"
    );
}

#[test]
fn lib_test_finish_method() {
    let mut parser = VTPushParser::new();
    let mut result = String::new();
    let mut callback = |vt_input: VTEvent| {
        result.push_str(&format!("{}\n", show(&vt_input)));
    };
    parser.feed_with(b"\x1b[1;2;3", &mut callback);
    parser.finish(&mut callback);
    assert_eq!(result.trim(), "");
}

#[test]
fn test_dcs_payload_passthrough() {
    let dcs_cases: &[(&[u8], &str)] = &[
        (b"\x1bPq\x1b[38:2:12:34:56m\x1b\\", "<ESC>[38:2:12:34:56m"),
        (b"\x1bPq\x1b[48:2:0:0:0m;xyz\x1b\\", "<ESC>[48:2:0:0:0m;xyz"),
        (
            b"\x1bP1$r\x1b[38:2:10:20:30;58:2::200:100:0m\x1b\\",
            "<ESC>[38:2:10:20:30;58:2::200:100:0m",
        ),
        (b"\x1bPqABC\x1b\x1bDEF\x1bXG\x1b\\", "ABC<ESC><ESC>DEF<ESC>XG"),
        (b"\x1bPqDATA\x07MORE\x1b\\", "DATA<BEL>MORE"),
        (b"\x1bP!|\x1b[38:5:208m\x1b\\", "<ESC>[38:5:208m"),
        (b"\x1bP>|Hello world\x1b\\", "Hello world"),
        (b"\x1bPq\x1b[38:2:1:2:3m\x1b[48:5:17m\x1b\\", "<ESC>[38:2:1:2:3m<ESC>[48:5:17m"),
        (b"\x1bPq\x1b[58:2::000:007:042m\x1b\\", "<ESC>[58:2::000:007:042m"),
    ];

    for (input, expected_body) in dcs_cases {
        let events = collect_events(input);
        let mut actual_body = String::new();
        for event in &events {
            if let Some(data_part) = event.strip_prefix("DcsData('").and_then(|s| s.strip_suffix("')")) {
                actual_body.push_str(&data_part.replace("\x1b", "<ESC>").replace("\x07", "<BEL>"));
            }
        }
        assert_eq!(
            actual_body, *expected_body,
            "DCS payload mismatch for input {:?}. Full events: {:#?}",
            input, events
        );
        assert!(
            events.iter().any(|e| e.starts_with("DcsStart")),
            "Missing DcsStart for input {:?}. Events: {:#?}",
            input,
            events
        );
        assert!(
            events.iter().any(|e| e.starts_with("DcsEnd")),
            "Missing DcsEnd for input {:?}. Events: {:#?}",
            input,
            events
        );
    }
}

#[test]
fn dcs_esc_esc_del() {
    let ev = collect_events(b"\x1bP1;2;3|\x1b\x1b\x7fdata\x1b\\");
    println!("{ev:?}");
}

#[test]
fn lib_dcs_header_with_colon_is_ignored_case1() {
    let ev = collect_events(b"\x1bP1:2qHELLO\x1b\\");
    assert!(ev.iter().all(|e| !e.starts_with("DcsStart")), "{ev:#?}");
}

#[test]
fn lib_dcs_header_with_colon_is_ignored_case2() {
    let ev = collect_events(b"\x1bP:1qDATA\x1b\\");
    assert!(ev.iter().all(|e| !e.starts_with("DcsStart")), "{ev:#?}");
}

#[test]
fn lib_dcs_header_with_colon_is_ignored_case3() {
    let ev = collect_events(b"\x1bP12:34!qPAYLOAD\x1b\\");
    assert!(ev.iter().all(|e| !e.starts_with("DcsStart")), "{ev:#?}");
}

#[test]
fn lib_osc_aborted_by_can_mid_body() {
    let mut s = Vec::new();
    s.extend_from_slice(b"\x1b]0;Title");
    s.push(CAN);
    s.extend_from_slice(b"more\x07");

    let ev = collect_debug(&s);
    // Start fires at ESC ], the body so far is handed out, then the cancel;
    // no end follows.
    assert!(ev.iter().any(|e| e.starts_with("OscStart")), "{ev:#?}");
    assert_eq!(ev[1], "OscData('0;Title')", "{ev:#?}");
    assert_eq!(ev[2], "OscCancel", "{ev:#?}");
    assert!(!ev.iter().any(|e| e.starts_with("OscEnd")), "{ev:#?}");
}

#[test]
fn lib_osc_aborted_by_sub_before_terminator() {
    let mut s = Vec::new();
    s.extend_from_slice(b"\x1b]52;c;YWJjZA==");
    s.push(SUB);
    s.extend_from_slice(b"\x1b\\");

    let ev = collect_debug(&s);
    assert!(ev.iter().any(|e| e.starts_with("OscStart")), "{ev:#?}");
    assert_eq!(ev[1], "OscData('52;c;YWJjZA==')", "{ev:#?}");
    assert_eq!(ev[2], "OscCancel", "{ev:#?}");
    assert!(!ev.iter().any(|e| e.starts_with("OscEnd")), "{ev:#?}");
}

#[test]
fn lib_dcs_aborted_by_can_before_body() {
    let mut s = Vec::new();
    s.extend_from_slice(b"\x1bPq");
    s.push(CAN);
    s.extend_from_slice(b"IGNORED\x1b\\");

    let ev = collect_debug(&s);
    assert_eq!(ev.len(), 4, "{ev:#?}");
    assert_eq!(ev[0], "DcsStart(, '', q)");
    assert_eq!(ev[1], "DcsCancel");
    assert_eq!(ev[2], "Raw('IGNORED')");
    assert_eq!(ev[3], "Esc('', \\)");
}

#[test]
fn lib_dcs_aborted_by_can_mid_body() {
    let mut s = Vec::new();
    s.extend_from_slice(b"\x1bPqABC");
    s.push(CAN);
    s.extend_from_slice(b"MORE\x1b\\");

    let ev = collect_debug(&s);
    // The body read before the cancel is handed out first.
    assert_eq!(ev.len(), 5, "{ev:#?}");
    assert_eq!(ev[0], "DcsStart(, '', q)");
    assert_eq!(ev[1], "DcsData('ABC')");
    assert_eq!(ev[2], "DcsCancel");
    assert_eq!(ev[3], "Raw('MORE')");
    assert_eq!(ev[4], "Esc('', \\)");
}

#[test]
fn lib_spa_aborted_by_can_is_ignored() {
    let mut s = Vec::new();
    s.extend_from_slice(b"\x1b_hello");
    s.push(CAN);
    s.extend_from_slice(b"world\x1b\\");

    let ev = collect_debug(&s);
    assert_eq!(ev.len(), 2, "{ev:#?}");
    assert_eq!(ev[0], "Raw('world')");
    assert_eq!(ev[1], "Esc('', \\)");
}

#[test]
fn lib_spa_sub_aborts_too() {
    let mut s = Vec::new();
    s.extend_from_slice(b"\x1bXhello");
    s.push(SUB);
    s.extend_from_slice(b"world\x1b\\");
    let ev = collect_debug(&s);
    assert_eq!(ev.len(), 2, "{ev:#?}");
    assert_eq!(ev[0], "Raw('world')");
    assert_eq!(ev[1], "Esc('', \\)");
}

#[test]
fn lib_can_in_ground_is_c0() {
    let mut s = Vec::new();
    s.extend_from_slice(b"abc");
    s.push(CAN);
    s.extend_from_slice(b"def");
    let ev = collect_debug(&s);
    assert_eq!(ev.len(), 3, "{ev:#?}");
    assert_eq!(ev[0], "Raw('abc')");
    assert_eq!(ev[1], "C0(18)");
    assert_eq!(ev[2], "Raw('def')");
}

fn sweep_three_bytes(first: std::ops::Range<u32>) {
    let mut bytes = vec![];
    let mut parser = VTPushParser::new_with_interest(VT_PARSER_INTEREST_ALL);
    for b0 in first {
        for rest in 0..=0xFFFF_u32 {
            let test_bytes = [b0 as u8, rest as u8, (rest >> 8) as u8];
            if test_bytes.iter().any(|b| b == &0) {
                continue;
            }
            let intro = |b: u8| matches!(b, b'[' | b'P' | b']' | b'_' | b'^' | b'X');
            if test_bytes[0] == 0x1b && intro(test_bytes[1]) {
                continue;
            }
            if test_bytes[1] == 0x1b && intro(test_bytes[2]) {
                continue;
            }
            bytes.clear();
            for event in parser.feed(&test_bytes) {
                let mut chunk = [0_u8; 3];
                let b = event
                    .encode(&mut chunk)
                    .unwrap_or_else(|_| panic!("Failed to encode event {test_bytes:X?} -> {}", show(&event)));
                bytes.extend_from_slice(&chunk[..b]);
            }
            if let Some(event) = parser.idle() {
                let mut chunk = [0_u8; 3];
                let b = event
                    .encode(&mut chunk)
                    .unwrap_or_else(|_| panic!("Failed to encode event {test_bytes:X?} -> {}", show(&event)));
                bytes.extend_from_slice(&chunk[..b]);
            }
            assert!(parser.is_ground(), "{test_bytes:X?}");
            assert_eq!(bytes, test_bytes, "{test_bytes:X?} -> {bytes:X?}");
        }
    }
}

#[test]
fn three_byte_sequences_capturable() {
    sweep_three_bytes(1..64);
}

#[test]
fn three_byte_sequences_capturable_from_0x40() {
    sweep_three_bytes(64..128);
}

#[test]
fn three_byte_sequences_capturable_from_0x80() {
    sweep_three_bytes(128..192);
}

#[test]
fn three_byte_sequences_capturable_from_0xc0() {
    sweep_three_bytes(192..256);
}

const CURSOR_POSITION_REPORT: fn() -> VTEscapeSignature = || VTEscapeSignature::csi(b'n').with_params_exact(2);

#[test]
fn test_matches() {
    let input = b"\x1b[1;2n";
    let mut found = false;
    let sig = CURSOR_POSITION_REPORT();
    VTPushParser::decode_buffer(input, &mut |event: VTEvent| {
        assert!(!found);
        found = true;
        assert!(sig.matches(&event));
    });
    assert!(found);
}

#[test]
fn signature_rejects_other_shapes() {
    let sig = VTEscapeSignature::csi(b'n').with_params_exact(2);
    let evs = events_with(VT_PARSER_INTEREST_DEFAULT, &[b"\x1b[1n\x1b[?1;2n\x1b[1;2m\x1b[1;2n"]);
    let hits: Vec<bool> = evs.iter().map(|e| sig.matches(e)).collect();
    assert_eq!(hits, vec![false, false, false, true]);
    let dcs = VTEscapeSignature::dcs(b'q').with_private(b'>');
    let evs = events_with(VT_PARSER_INTEREST_DEFAULT, &[b"\x1bP>q\x1b\\"]);
    assert!(dcs.matches(&evs[0]));
    assert!(!VTEscapeSignature::osc(b'q').matches(&evs[0]));
    let esc = VTEscapeSignature::ss3(b'c').with_intermediate(b'(');
    let evs = events_with(VT_PARSER_INTEREST_DEFAULT, &[b"\x1b(c"]);
    assert!(esc.matches(&evs[0]));
}

fn capture_run(input: &[u8], on_csi: impl Fn(&vt_push_parser::event::CSI) -> VTInputCapture) -> String {
    let mut output = String::new();
    let mut parser = VTCapturePushParser::new();
    parser.feed_with(input, &mut |event: VTCaptureEvent| {
        output.push_str(&format!("{}\n", show_capture(&event)));
        match event {
            VTCaptureEvent::VTEvent(VTEvent::Csi(csi)) => on_csi(&csi),
            _ => VTInputCapture::Nothing,
        }
    });
    output
}

#[test]
fn test_capture_paste() {
    let output = capture_run(b"raw\x1b[200~paste\x1b[201~raw", |csi| {
        if csi.params.try_parse(0).unwrap_or(0) == 200 {
            VTInputCapture::Terminator(b"\x1b[201~")
        } else {
            VTInputCapture::Nothing
        }
    });
    assert_eq!(
        output.trim(),
        r#"
VTEvent(Raw('raw'))
VTEvent(Csi('200', '', '~'))
Capture([112, 97, 115, 116, 101])
CaptureEnd
VTEvent(Raw('raw'))
"#
        .trim()
    );
}

#[test]
fn test_capture_count() {
    let output = capture_run(b"raw\x1b[Xpaste\x1b[Yraw", |csi| {
        if csi.final_byte == b'X' {
            VTInputCapture::Count(5)
        } else {
            VTInputCapture::Nothing
        }
    });
    assert_eq!(
        output.trim(),
        r#"
VTEvent(Raw('raw'))
VTEvent(Csi('', 'X'))
Capture([112, 97, 115, 116, 101])
CaptureEnd
VTEvent(Csi('', 'Y'))
VTEvent(Raw('raw'))
"#
        .trim()
    );
}

#[test]
fn test_capture_count_utf8_but_ascii() {
    let output = capture_run(b"raw\x1b[Xpaste\x1b[Yraw", |csi| {
        if csi.final_byte == b'X' {
            VTInputCapture::CountUtf8(5)
        } else {
            VTInputCapture::Nothing
        }
    });
    assert_eq!(
        output.trim(),
        r#"
VTEvent(Raw('raw'))
VTEvent(Csi('', 'X'))
Capture([112, 97, 115, 116, 101])
CaptureEnd
VTEvent(Csi('', 'Y'))
VTEvent(Raw('raw'))
"#
        .trim()
    );
}

#[test]
fn test_capture_count_utf8() {
    let input = "raw\u{001b}[X🤖🦕✅😀🕓\u{001b}[Yraw".as_bytes();
    let output = capture_run(input, |csi| {
        if csi.final_byte == b'X' {
            VTInputCapture::CountUtf8(5)
        } else {
            VTInputCapture::Nothing
        }
    });
    assert_eq!(output.trim(), r#"
VTEvent(Raw('raw'))
VTEvent(Csi('', 'X'))
Capture([240, 159, 164, 150, 240, 159, 166, 149, 226, 156, 133, 240, 159, 152, 128, 240, 159, 149, 147])
CaptureEnd
VTEvent(Csi('', 'Y'))
VTEvent(Raw('raw'))
"#.trim());
}

#[test]
fn test_capture_terminator_partial_match() {
    let output = capture_run(b"start\x1b[200~part\x1b[201ial\x1b[201~end", |csi| {
        if csi.final_byte == b'~' && csi.params.try_parse(0).unwrap_or(0) == 200 {
            VTInputCapture::Terminator(b"\x1b[201~")
        } else {
            VTInputCapture::Nothing
        }
    });
    assert_eq!(
        output.trim(),
        r#"VTEvent(Raw('start'))
VTEvent(Csi('200', '', '~'))
Capture([112, 97, 114, 116])
Capture([27, 91, 50, 48, 49])
Capture([105, 97, 108])
CaptureEnd
VTEvent(Raw('end'))"#
    );
}

fn capture_chunk_size(input: &'static [u8; 32], chunk_size: usize) -> (Vec<u8>, String) {
    let mut output = String::new();
    let mut parser = VTCapturePushParser::new();
    let mut captured = Vec::new();
    for chunk in input.chunks(chunk_size) {
        parser.feed_with(chunk, &mut |event: VTCaptureEvent| {
            output.push_str(&format!("{}\n", show_capture(&event)));
            match event {
                VTCaptureEvent::Capture(data) => {
                    captured.extend_from_slice(&data);
                    VTInputCapture::Nothing
                }
                VTCaptureEvent::VTEvent(VTEvent::Csi(csi)) => {
                    if csi.final_byte == b'~' && csi.params.try_parse(0).unwrap_or(0) == 200 {
                        VTInputCapture::Terminator(b"\x1b[201~")
                    } else {
                        VTInputCapture::Nothing
                    }
                }
                _ => VTInputCapture::Nothing,
            }
        });
    }
    (captured, output)
}

#[test]
fn test_capture_terminator_partial_match_single_byte() {
    let input = b"start\x1b[200~part\x1b[201ial\x1b[201~end";
    for chunk_size in 1..5 {
        let (captured, output) = capture_chunk_size(input, chunk_size);
        assert_eq!(captured, b"part\x1b[201ial", "{output}",);
    }
}

#[test]
fn capture_count_spans_feeds() {
    let mut parser = VTCapturePushParser::new();
    let mut output = String::new();
    for chunk in [b"\x1b[Xab".as_slice(), b"cd", b"ef"] {
        parser.feed_with(chunk, &mut |event: VTCaptureEvent| {
            output.push_str(&format!("{}\n", show_capture(&event)));
            match event {
                VTCaptureEvent::VTEvent(VTEvent::Csi(_)) => VTInputCapture::Count(3),
                _ => VTInputCapture::Nothing,
            }
        });
    }
    assert_eq!(
        output.trim(),
        "VTEvent(Csi('', 'X'))\nCapture([97, 98])\nCapture([99])\nCaptureEnd\nVTEvent(Raw('d'))\nVTEvent(Raw('ef'))"
    );
}

// ---- scenarios

fn shown(evs: &[VTEvent]) -> Vec<String> {
    evs.iter().map(show).collect()
}

const S1: &[u8] = b"Hello, world!\x1b[31mHello, world!\x1b[0m";

#[test]
fn scenario_sgr_between_text() {
    let evs = events_with(VT_PARSER_INTEREST_DEFAULT, &[S1]);
    assert_eq!(
        shown(&evs),
        vec!["Raw('Hello, world!')", "Csi('31', '', 'm')", "Raw('Hello, world!')", "Csi('0', '', 'm')"]
    );
}

#[test]
fn scenario_osc_title_bel() {
    let evs = events_with(VT_PARSER_INTEREST_DEFAULT, &[b"\x1b]0;Title\x07"]);
    assert_eq!(shown(&evs), vec!["OscStart", "OscData('0;Title')", "OscEnd('')"]);
    assert!(matches!(evs[2], VTEvent::OscEnd { used_bel: true, .. }));
}

#[test]
fn scenario_osc_clipboard_st() {
    let evs = events_with(VT_PARSER_INTEREST_DEFAULT, &[b"\x1b]52;c;YWJjZA==\x1b\\"]);
    assert_eq!(shown(&evs), vec!["OscStart", "OscData('52;c;YWJjZA==')", "OscEnd('')"]);
    assert!(matches!(evs[2], VTEvent::OscEnd { used_bel: false, .. }));
}

#[test]
fn scenario_dcs_passes_csi_through() {
    let evs = events_with(VT_PARSER_INTEREST_DEFAULT, &[b"\x1bPq\x1b[38:2:12:34:56m\x1b\\"]);
    assert_eq!(
        shown(&evs),
        vec!["DcsStart(, '', q)", "DcsData('<ESC>[38:2:12:34:56m')", "DcsEnd('')"]
    );
}

#[test]
fn scenario_can_in_text() {
    let evs = events_with(VT_PARSER_INTEREST_DEFAULT, &[b"abc\x18def"]);
    assert_eq!(shown(&evs), vec!["Raw('abc')", "C0(18)", "Raw('def')"]);
}

#[test]
fn scenario_dcs_cancelled() {
    let evs = events_with(VT_PARSER_INTEREST_DEFAULT, &[b"\x1bPqABC\x18MORE\x1b\\"]);
    assert_eq!(
        shown(&evs),
        vec!["DcsStart(, '', q)", "DcsData('ABC')", "DcsCancel", "Raw('MORE')", "Esc('', \\)"]
    );
}

#[test]
fn scenario_chunked_sgr() {
    let whole = merged(&events_with(VT_PARSER_INTEREST_DEFAULT, &[S1]));
    for size in 1..S1.len() {
        let chunks: Vec<&[u8]> = S1.chunks(size).collect();
        assert_eq!(merged(&events_with(VT_PARSER_INTEREST_DEFAULT, &chunks)), whole, "chunk size {size}");
    }
}

#[test]
fn scenario_bracketed_paste() {
    let output = capture_run(b"raw\x1b[200~paste\x1b[201~raw", |csi| {
        if csi.params.try_parse(0) == Some(200) && csi.final_byte == b'~' {
            VTInputCapture::Terminator(b"\x1b[201~")
        } else {
            VTInputCapture::Nothing
        }
    });
    assert_eq!(
        output,
        "VTEvent(Raw('raw'))\nVTEvent(Csi('200', '', '~'))\nCapture([112, 97, 115, 116, 101])\nCaptureEnd\nVTEvent(Raw('raw'))\n"
    );
}

// ---- laws on concrete values

const MIXED: &[u8] = b"a\x1b[1;2mb\x1bP1$qdata\x1b\x1bx\x1b\\c\x1b]2;t\x1b\\\x1b(B\x1bNx\x1b!\x18\x7fz\x1b]9\x1a";

#[test]
fn framing_counts_close_after_finish() {
    for chunk in 1..8 {
        let mut p = VTPushParser::new();
        let mut evs = Vec::new();
        for c in MIXED.chunks(chunk) {
            evs.extend(p.feed(c));
        }
        evs.extend(p.finish_events());
        let (mut dcs, mut osc) = (0i32, 0i32);
        for e in &evs {
            match e {
                VTEvent::DcsStart(_) => dcs += 1,
                VTEvent::DcsEnd(_) | VTEvent::DcsCancel => dcs -= 1,
                VTEvent::OscStart => osc += 1,
                VTEvent::OscEnd { .. } | VTEvent::OscCancel => osc -= 1,
                _ => {}
            }
            assert!((0..=1).contains(&dcs) && (0..=1).contains(&osc));
        }
        assert_eq!((dcs, osc), (0, 0));
    }
}

#[test]
fn chunking_keeps_the_trace() {
    let whole = merged(&events_with(VT_PARSER_INTEREST_ALL, &[MIXED]));
    for size in 1..MIXED.len() {
        let chunks: Vec<&[u8]> = MIXED.chunks(size).collect();
        assert_eq!(merged(&events_with(VT_PARSER_INTEREST_ALL, &chunks)), whole, "chunk size {size}");
    }
}

#[test]
fn aborted_feed_resumes_the_same_trace() {
    let whole = merged(&events_with(VT_PARSER_INTEREST_ALL, &[MIXED]));
    let mut p = VTPushParser::new_with_interest(VT_PARSER_INTEREST_ALL);
    let mut got: Vec<VTEvent> = Vec::new();
    let mut rest = MIXED;
    let mut rounds = 0;
    while !rest.is_empty() {
        let mut taken = 0;
        let n = p.feed_with_abortable(rest, &mut |e: VTEvent| {
            got.push(e);
            taken += 1;
            false
        });
        assert!(n <= rest.len());
        rest = &rest[n..];
        rounds += 1;
    }
    got.extend(p.feed(b""));
    assert!(rounds > 5);
    assert_eq!(merged(&got), whole);

    let mut p = VTPushParser::new_with_interest(VT_PARSER_INTEREST_ALL);
    let mut all = Vec::new();
    assert_eq!(p.feed_with_abortable(MIXED, &mut |e: VTEvent| { all.push(e); true }), MIXED.len());
    assert_eq!(merged(&all), whole);
}

#[test]
fn interest_filters_the_full_trace() {
    let full = events_with(VT_PARSER_INTEREST_ALL, &[MIXED]);
    let flags = [
        VT_PARSER_INTEREST_CSI,
        VT_PARSER_INTEREST_DCS,
        VT_PARSER_INTEREST_OSC,
        VT_PARSER_INTEREST_ESCAPE_RECOVERY,
        VT_PARSER_INTEREST_OTHER,
    ];
    for mask in 0..32u32 {
        let mut interest = 0u8;
        for (i, f) in flags.iter().enumerate() {
            if mask & (1 << i) != 0 {
                interest |= f;
            }
        }
        // Only masks that keep CSI and DCS parse those sequences the same way.
        if interest & (VT_PARSER_INTEREST_CSI | VT_PARSER_INTEREST_DCS)
            != (VT_PARSER_INTEREST_CSI | VT_PARSER_INTEREST_DCS)
        {
            continue;
        }
        let keep = |e: &VTEvent| match e {
            VTEvent::Raw(_) | VTEvent::C0(_) => true,
            VTEvent::Esc(_) | VTEvent::Ss2(_) | VTEvent::Ss3(_) => interest & VT_PARSER_INTEREST_OTHER != 0,
            VTEvent::EscInvalid(_) => interest & VT_PARSER_INTEREST_ESCAPE_RECOVERY != 0,
            VTEvent::Csi(_) => interest & VT_PARSER_INTEREST_CSI != 0,
            VTEvent::DcsStart(_) | VTEvent::DcsData(_) | VTEvent::DcsEnd(_) | VTEvent::DcsCancel => {
                interest & VT_PARSER_INTEREST_DCS != 0
            }
            _ => interest & VT_PARSER_INTEREST_OSC != 0,
        };
        let filtered: Vec<VTEvent> = full.iter().filter(|e| keep(e)).cloned().collect();
        assert_eq!(merged(&events_with(interest, &[MIXED])), merged(&filtered), "interest {interest}");
    }
    // With CSI off, text around a CSI still comes out.
    let evs = events_with(VT_PARSER_INTEREST_NONE, &[b"ab\x1b[1mcd"]);
    assert_eq!(shown(&evs), vec!["Raw('ab')", "Raw('cd')"]);
}

#[test]
fn round_trip_of_well_formed_input() {
    let input: &[u8] = b"text\x1b[?1;2:3 q\x1b[m\x1bP1;2|body\x1bx\x1b\\\x1b]0;t\x07\x1b]1;u\x1b\\\x1b(B\x1bNa\x1bOb\r\n\t\x01";
    let evs = events_with(VT_PARSER_INTEREST_ALL, &[input]);
    assert_eq!(encode_all(&evs), input);
    for size in 1..input.len() {
        let chunks: Vec<&[u8]> = input.chunks(size).collect();
        assert_eq!(encode_all(&events_with(VT_PARSER_INTEREST_ALL, &chunks)), input);
    }
}

#[test]
fn plain_text_is_one_raw_event() {
    let input: &[u8] = "plain text\twith tabs\r\nand ünïcödé".as_bytes();
    let evs = events_with(VT_PARSER_INTEREST_DEFAULT, &[input]);
    assert_eq!(evs.len(), 1);
    assert_eq!(evs[0], VTEvent::Raw(input.to_vec()));
}

#[test]
fn idle_gives_up_open_escapes() {
    let mut p = VTPushParser::new_with_interest(VT_PARSER_INTEREST_ALL);
    assert!(p.feed(b"\x1b").is_empty());
    assert!(matches!(p.idle(), Some(VTEvent::C0(0x1b))));
    assert!(p.is_ground());
    assert!(p.feed(b"\x1b#").is_empty());
    assert!(matches!(p.idle(), Some(VTEvent::EscInvalid(EscInvalid::One(b'#')))));
    assert!(p.feed(b"\x1bO").is_empty());
    assert!(matches!(p.idle(), Some(VTEvent::EscInvalid(EscInvalid::One(b'O')))));
    let mut q = VTPushParser::new();
    q.feed(b"\x1bN");
    assert!(q.idle().is_none());
    assert!(q.is_ground());
    assert!(q.idle().is_none());
}

#[test]
fn encode_reports_needed_length() {
    let e = events_with(VT_PARSER_INTEREST_ALL, &[b"\x1b[12;34H"]);
    let mut small = [0u8; 4];
    assert_eq!(e[0].encode(&mut small), Err(8));
    assert_eq!(small, [0; 4]);
    assert_eq!(e[0].byte_len(), 8);
    let mut buf = [0u8; 10];
    assert_eq!(e[0].encode(&mut buf), Ok(8));
    assert_eq!(&buf[..8], b"\x1b[12;34H");
}

#[test]
fn recovery_events_and_header_rules() {
    let evs = events_with(VT_PARSER_INTEREST_ALL, &[b"\x1b!!x\x1b<\x1b\x1b[1;;2;m\x1b[1\x1b[2m\x1bP1;2;3 q\x1b\\"]);
    assert_eq!(
        shown(&evs),
        vec![
            "EscInvalid(1B 21 21)",
            "Raw('x')",
            "EscInvalid(1B 3C)",
            "C0(1b)",
            "Csi('1', '', '2', '', '', 'm')",
            "Csi('2', '', 'm')",
            "DcsStart(, '1', '2', '3', ' ', q)",
            "DcsEnd('')",
        ]
    );
}

#[test]
fn dcs_colon_params_when_configured() {
    let evs = events_with(VT_PARSER_INTEREST_DEFAULT | VT_PARSER_DCS_COLON_PARAMS, &[b"\x1bP1:2qHELLO\x1b\\"]);
    assert_eq!(shown(&evs), vec!["DcsStart(, '1:2', '', q)", "DcsData('HELLO')", "DcsEnd('')"]);
    let evs = events_with(VT_PARSER_INTEREST_DEFAULT, &[b"\x1bP1:2qHELLO\x1b\\"]);
    assert!(evs.is_empty());
}

#[test]
fn owned_copy_keeps_the_event() {
    let evs = events_with(VT_PARSER_INTEREST_ALL, &[b"\x1b[?1;2$pab\x1bP>q\x1b\\"]);
    for e in &evs {
        assert_eq!(&e.to_owned(), e);
    }
    assert_eq!(evs[0].csi().unwrap().params.params, vec![b"1".to_vec(), b"2".to_vec()]);
    assert!(evs[1].csi().is_none());
}

#[test]
fn intermediates_are_a_set_of_bytes() {
    assert!(!VTIntermediate::empty().has(0));
    assert!(VTIntermediate::one(b'!').has(b'!'));
    assert!(!VTIntermediate::one(b'!').has(0));
    assert!(VTIntermediate::two(b'!', b'#').has(b'#'));
}

#[test]
fn every_esc_final_ends_an_escape() {
    let evs = events_with(VT_PARSER_INTEREST_ALL, &[b"\x1b:\x1b;\x1b!?"]);
    assert_eq!(shown(&evs), vec!["Esc('', :)", "Esc('', ;)", "Esc('!', ?)"]);
}

#[test]
fn decode_hands_out_the_whole_trace() {
    assert_eq!(
        shown(&VTPushParser::decode(b"\x1b]0;Title\x07")),
        vec!["OscStart", "OscData('0;Title')", "OscEnd('')"]
    );
    assert_eq!(shown(&VTPushParser::decode(b"\x1bPqab")), vec!["DcsStart(, '', q)", "DcsData('ab')", "DcsCancel"]);
    assert!(VTPushParser::decode(b"\x1b[1;2").is_empty());
}

#[test]
fn capture_idle_gives_up_escape() {
    let mut c = VTCapturePushParser::new_with_interest(VT_PARSER_INTEREST_ALL);
    c.feed_with(b"\x1bN", &mut |_e: VTCaptureEvent| VTInputCapture::Nothing);
    assert_eq!(c.idle().map(|e| show_capture(&e)), Some("VTEvent(EscInvalid(1B 4E))".to_string()));
    assert!(c.idle().is_none());
}
