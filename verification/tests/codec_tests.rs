use app_bridge::decode;
use app_bridge::encode;
use app_bridge::install;
use app_bridge::install_pwa;
use app_bridge::list;
use app_bridge::uninstall;
use app_bridge::Command;
use app_bridge::Decoded;
use app_bridge::FrameReader;

fn decoded_result(d: Decoded) -> Result<String, String> {
    match d {
        Decoded::Invalid => panic!("fatal frame"),
        other => other.into_result(),
    }
}

#[test]
fn encode_install_exact() {
    let frame = install("/tmp/app.zip".to_string());
    assert_eq!(frame, b"{\"cmd\":\"install\",\"param\":\"/tmp/app.zip\"}\r\n".to_vec());
}

#[test]
fn encode_list_null_param() {
    let frame = list();
    assert_eq!(frame, b"{\"cmd\":\"list\",\"param\":null}\r\n".to_vec());
}

#[test]
fn encode_uninstall_and_pwa_names() {
    let frame = uninstall("https://e.x/app.webmanifest".to_string());
    assert_eq!(
        frame,
        b"{\"cmd\":\"uninstall\",\"param\":\"https://e.x/app.webmanifest\"}\r\n".to_vec()
    );
    let frame = install_pwa("https://e.x/m.json".to_string());
    assert_eq!(
        frame,
        b"{\"cmd\":\"install-pwa\",\"param\":\"https://e.x/m.json\"}\r\n".to_vec()
    );
}

#[test]
fn encode_escapes_control_bytes() {
    let frame = install("a\"b\\c\r\nd\u{0001}e".to_string());
    assert_eq!(
        frame,
        b"{\"cmd\":\"install\",\"param\":\"a\\\"b\\\\c\\r\\nd\\u0001e\"}\r\n".to_vec()
    );
    // The serialized object itself never holds a CR LF pair: the
    // terminator at the end is the only one.
    let body = &frame[..frame.len() - 2];
    assert!(!body.windows(2).any(|w| w == b"\r\n"));
}

#[test]
fn encode_agrees_with_serde_json() {
    let param = "päth/with \"quotes\" and\nnewlines\u{0007}";
    let frame = install(param.to_string());
    let v: serde_json::Value = serde_json::from_slice(&frame).unwrap();
    assert_eq!(v["cmd"], serde_json::Value::String("install".to_string()));
    assert_eq!(v["param"], serde_json::Value::String(param.to_string()));
    let v: serde_json::Value = serde_json::from_slice(&list()).unwrap();
    assert_eq!(v["param"], serde_json::Value::Null);
}

#[test]
fn decode_success_ok() {
    let r = decoded_result(decode(b"{\"success\":\"ok\"}\r\n"));
    assert_eq!(r, Ok("ok".to_string()));
}

#[test]
fn decode_error_bad() {
    let r = decoded_result(decode(b"{\"error\":\"bad\"}\r\n"));
    assert_eq!(r, Err("bad".to_string()));
}

#[test]
fn decode_empty_object_unexpected() {
    let r = decoded_result(decode(b"{}\r\n"));
    assert_eq!(r, Err("unexpected result".to_string()));
}

#[test]
fn decode_error_wins_over_success() {
    let r = decoded_result(decode(b"{\"success\":\"s\",\"error\":\"e\"}\r\n"));
    assert_eq!(r, Err("e".to_string()));
}

#[test]
fn decode_last_duplicate_wins() {
    let r = decoded_result(decode(b"{\"success\":\"a\",\"success\":\"b\"}\r\n"));
    assert_eq!(r, Ok("b".to_string()));
    // serde_json reads repeated keys the same way.
    let v: serde_json::Value =
        serde_json::from_slice(b"{\"success\":\"a\",\"success\":\"b\"}").unwrap();
    assert_eq!(v["success"], serde_json::Value::String("b".to_string()));
}

#[test]
fn decode_escapes_in_payload() {
    let r = decoded_result(decode(b"{\"success\":\"a\\nb\\t\\\"c\\\\d\\/e\"}\r\n"));
    assert_eq!(r, Ok("a\nb\t\"c\\d/e".to_string()));
    let r = decoded_result(decode(b"{\"success\":\"\\u0041\\u00e9\\u20ac\"}\r\n"));
    assert_eq!(r, Ok("A\u{e9}\u{20ac}".to_string()));
    let r = decoded_result(decode(b"{\"success\":\"\\ud83d\\ude00\"}\r\n"));
    assert_eq!(r, Ok("\u{1F600}".to_string()));
}

#[test]
fn decode_raw_utf8_payload() {
    let r = decoded_result(decode("{\"success\":\"caf\u{e9} \u{1F600}\"}\r\n".as_bytes()));
    assert_eq!(r, Ok("caf\u{e9} \u{1F600}".to_string()));
}

#[test]
fn decode_invalid_json_is_fatal() {
    assert!(matches!(decode(b"not json\r\n"), Decoded::Invalid));
    assert!(matches!(decode(b"{\"success\":\"ok\"\r\n"), Decoded::Invalid));
    assert!(matches!(decode(b"{\"success\":\"lone \\ud800\"}\r\n"), Decoded::Invalid));
    assert!(matches!(decode(b""), Decoded::Invalid));
}

#[test]
fn decode_non_string_value_is_fatal() {
    assert!(matches!(decode(b"{\"success\":null}\r\n"), Decoded::Invalid));
    assert!(matches!(decode(b"{\"error\":null}\r\n"), Decoded::Invalid));
    assert!(matches!(decode(b"{\"success\":5}\r\n"), Decoded::Invalid));
}

#[test]
fn decode_tolerates_whitespace_and_extra_members() {
    let r = decoded_result(decode(b" {\r\n \"other\" : null , \"success\" : \"ok\" } \r\n"));
    assert_eq!(r, Ok("ok".to_string()));
}

#[test]
fn decode_codes() {
    assert_eq!(decode(b"{\"success\":\"ok\"}\r\n").code(), 0);
    assert_eq!(decode(b"{\"error\":\"bad\"}\r\n").code(), 10);
    assert_eq!(decode(b"{}\r\n").code(), 10);
}

#[test]
fn frame_finds_first_terminator() {
    let mut r = FrameReader::new();
    r.feed(b"a\r\nb\r\n");
    assert_eq!(r.complete(), Some(1));
    assert_eq!(r.frame_bytes(3), b"a\r\n".to_vec());
}

#[test]
fn fragmented_frame_reassembles() {
    // The parameter itself holds CR LF; escaping keeps it out of the
    // wire bytes, so the boundary scan never stops early.
    let frame = install("a\r\nb".to_string());
    for chunk_len in [1usize, 3, 7] {
        let mut r = FrameReader::new();
        let mut fed = 0usize;
        for chunk in frame.chunks(chunk_len) {
            if fed + chunk.len() < frame.len() {
                assert_eq!(r.complete(), None);
            }
            r.feed(chunk);
            fed += chunk.len();
        }
        let end = r.complete().expect("terminator must be found");
        assert_eq!(end, frame.len() - 2);
        assert_eq!(r.frame_bytes(end + 2), frame);
    }
}

#[test]
fn concurrent_readers_independent() {
    // Two in-flight exchanges, each on its own connection and its own
    // reader: bytes arriving turn by turn never interleave.
    let a = b"{\"success\":\"one\"}\r\n";
    let b = b"{\"error\":\"two\"}\r\n";
    let mut ra = FrameReader::new();
    let mut rb = FrameReader::new();
    let mut ia = 0usize;
    let mut ib = 0usize;
    while ia < a.len() || ib < b.len() {
        if ia < a.len() {
            ra.feed(&a[ia..(ia + 2).min(a.len())]);
            ia = (ia + 2).min(a.len());
        }
        if ib < b.len() {
            rb.feed_byte(b[ib]);
            ib += 1;
        }
    }
    let ea = ra.complete().unwrap();
    let eb = rb.complete().unwrap();
    assert_eq!(decoded_result(decode(&ra.frame_bytes(ea + 2))), Ok("one".to_string()));
    assert_eq!(decoded_result(decode(&rb.frame_bytes(eb + 2))), Err("two".to_string()));
}

#[test]
fn request_frames_decode_as_unexpected() {
    // A request object holds neither `error` nor `success`, so read
    // as a response it is the protocol-level `unexpected result` —
    // in particular, every escape the encoder emits parses back.
    for frame in [
        list(),
        install("a\"b\\c\r\nd\u{0001}e".to_string()),
        install_pwa("https://e.x/m\u{20ac}".to_string()),
        uninstall(String::new()),
    ] {
        assert_eq!(decoded_result(decode(&frame)), Err("unexpected result".to_string()));
    }
}

#[test]
fn decode_empty_payload_strings() {
    assert_eq!(decoded_result(decode(b"{\"success\":\"\"}\r\n")), Ok(String::new()));
    assert_eq!(decoded_result(decode(b"{\"error\":\"\"}\r\n")), Err(String::new()));
}

#[test]
fn encode_command_enum_matches_helpers() {
    let c = Command::Install { path: "p".to_string() };
    assert_eq!(encode(&c), install("p".to_string()));
    assert_eq!(encode(&Command::List), list());
}
