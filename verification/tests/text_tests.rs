use protoflow_blocks::fields::{put_field, str_less};
use protoflow_blocks::hex::{bytes_to_hex, hex_to_bytes, hex_value, HexError};
use protoflow_blocks::lines::{encode_line, scan_lines, LineDecoder};
use protoflow_blocks::text::{join_strings, split_once, split_str, ConcatStrings, SplitString};
use protoflow_blocks::value::{Kind, Value};

fn strings(v: &[&str]) -> Vec<String> {
    v.iter().map(|s| s.to_string()).collect()
}

#[test]
fn hex_encode_then_decode() {
    let message = b"Hello, world!\n\x00\xff".to_vec();
    let hex = bytes_to_hex(&message);
    assert_eq!(String::from_utf8(hex.clone()).unwrap(), "48656c6c6f2c20776f726c64210a00ff");
    assert_eq!(hex_to_bytes(&hex).unwrap(), message);
}

#[test]
fn hex_accepts_both_cases() {
    assert_eq!(hex_to_bytes(b"0aFf").unwrap(), vec![0x0a, 0xff]);
    assert_eq!(hex_value(b'7'), Ok(7));
    assert_eq!(hex_value(b'c'), Ok(12));
    assert_eq!(hex_value(b'C'), Ok(12));
}

#[test]
fn hex_rejects_other_characters() {
    assert_eq!(hex_to_bytes(b"0g"), Err(HexError::InvalidHexCharacter(b'g')));
    assert_eq!(hex_value(b' '), Err(HexError::InvalidHexCharacter(b' ')));
}

#[test]
fn hex_ignores_a_trailing_odd_digit() {
    assert_eq!(hex_to_bytes(b"abc").unwrap(), vec![0xab]);
    assert_eq!(hex_to_bytes(b"").unwrap(), Vec::<u8>::new());
}

#[test]
fn encode_line_appends_a_line_feed() {
    assert_eq!(encode_line("héllo"), "héllo\n".as_bytes().to_vec());
    assert_eq!(encode_line(""), b"\n".to_vec());
}

#[test]
fn scan_lines_reads_complete_lines() {
    let (lines, consumed, failed) = scan_lines(b"one\ntwo\nthr");
    assert_eq!(lines, strings(&["one", "two"]));
    assert_eq!(consumed, 8);
    assert!(!failed);
}

#[test]
fn scan_lines_fails_on_invalid_utf8() {
    let (lines, consumed, failed) = scan_lines(b"ok\n\xff\nmore\n");
    assert_eq!(lines, strings(&["ok"]));
    assert_eq!(consumed, 3);
    assert!(failed);
}

#[test]
fn line_decoder_joins_chunks() {
    let mut d = LineDecoder::new();
    let r = d.on_chunk(b"hel");
    assert!(r.lines.is_empty() && !r.failed);
    let r = d.on_chunk(b"lo\nwor");
    assert_eq!(r.lines, strings(&["hello"]));
    let r = d.on_chunk(b"ld\n\n");
    assert_eq!(r.lines, strings(&["world", ""]));
    assert!(!r.failed);
}

#[test]
fn chunked_decoding_matches_whole_decoding() {
    let text = b"alpha\nbeta\ngamma\n";
    let (whole, _, _) = scan_lines(text);
    for cut in 0..text.len() {
        let mut d = LineDecoder::new();
        let mut got = d.on_chunk(&text[..cut]).lines;
        got.extend(d.on_chunk(&text[cut..]).lines);
        assert_eq!(got, whole, "cut at {}", cut);
    }
}

#[test]
fn split_string_by_delimiters() {
    assert_eq!(split_str("a,b,,c", ","), strings(&["a", "b", "", "c"]));
    assert_eq!(split_str("a--b--", "--"), strings(&["a", "b", ""]));
    assert_eq!(split_str("aaa", "aa"), strings(&["", "a"]));
    assert_eq!(split_str("", ","), strings(&[""]));
    assert_eq!(split_str("ab", ""), strings(&["", "a", "b", ""]));
    assert_eq!(split_str("héllo wörld", " "), strings(&["héllo", "wörld"]));
}

#[test]
fn split_str_agrees_with_std() {
    for (s, d) in [("x::y::z", "::"), ("no delimiter", ";"), (";;", ";"), ("ab", ""), ("", "")] {
        let expected: Vec<String> = s.split(d).map(|p| p.to_string()).collect();
        assert_eq!(split_str(s, d), expected, "{:?} by {:?}", s, d);
    }
}

#[test]
fn split_once_finds_the_first_delimiter() {
    assert_eq!(split_once("1.5..2.5", ".."), Some(("1.5".to_string(), "2.5".to_string())));
    assert_eq!(split_once("a..b..c", ".."), Some(("a".to_string(), "b..c".to_string())));
    assert_eq!(split_once("abc", ".."), None);
    assert_eq!(split_once("abc", ""), Some(("".to_string(), "abc".to_string())));
}

#[test]
fn join_then_split_gives_the_parts_back() {
    let parts = strings(&["x", "", "yz"]);
    let joined = join_strings(&parts, ",");
    assert_eq!(joined, "x,,yz");
    assert_eq!(split_str(&joined, ","), parts);
}

#[test]
fn concat_strings_skips_empty_inputs() {
    let mut c = ConcatStrings::with_params(Some(" ".to_string()));
    c.on_input("Hello".to_string());
    c.on_input(String::new());
    c.on_input("world".to_string());
    assert_eq!(c.on_input_closed(), "Hello world");
    let c = ConcatStrings::new();
    assert_eq!(c.on_input_closed(), "");
    assert_eq!(ConcatStrings::new().joiner(), "");
}

#[test]
fn split_string_block() {
    let s = SplitString::with_params(Some(",".to_string()));
    assert_eq!(s.delimiter(), ",");
    assert_eq!(s.on_input("a,b"), strings(&["a", "b"]));
}

#[test]
fn str_less_orders_by_code_point() {
    assert!(str_less("a", "b"));
    assert!(str_less("ab", "abc"));
    assert!(!str_less("abc", "ab"));
    assert!(!str_less("same", "same"));
    assert!(str_less("Z", "a"));
    assert!(str_less("z", "é"));
}

#[test]
fn put_field_keeps_names_ordered_and_unique() {
    let mut fields: Vec<(String, Value)> = Vec::new();
    for (k, b) in [("m", true), ("c", false), ("x", true), ("c", true)] {
        put_field(&mut fields, k.to_string(), Value { kind: Some(Kind::BoolValue(b)) });
    }
    let names: Vec<&str> = fields.iter().map(|(k, _)| k.as_str()).collect();
    assert_eq!(names, vec!["c", "m", "x"]);
    assert!(matches!(fields[0].1.kind, Some(Kind::BoolValue(true))));
}
