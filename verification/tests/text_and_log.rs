use loop_os::debug_log::{DebugLog, DebugLogError, DEBUG_BUFFER_SIZE};
use loop_os::string::String as FixedString;
use loop_os::aura::search_terms;
use loop_os::text::{decimal_bytes, find_bytes, str_contains, str_equal, str_find};

#[test]
fn find_bytes_reports_first_match() {
    assert_eq!(find_bytes(b"abcabc", b"bc"), Some(1));
    assert_eq!(find_bytes(b"abcabc", b"cb"), None);
    assert_eq!(find_bytes(b"abc", b""), Some(0));
    assert_eq!(find_bytes(b"ab", b"abc"), None);
}

#[test]
fn str_search_matches_std() {
    assert!(str_contains("say hello to Mark", "hello"));
    assert!(!str_contains("say hi", "hello"));
    assert_eq!(str_find("please search for it", "search"), Some(7));
    assert_eq!(str_find("nothing here", "search"), None);
    assert_eq!(str_find("héllo search", "search"), "héllo search".find("search"));
}

#[test]
fn str_equal_compares_characters() {
    assert!(str_equal("native", "native"));
    assert!(!str_equal("native", "nativ"));
    assert!(!str_equal("linux", "Linux"));
}

#[test]
fn trim_removes_unicode_whitespace() {
    assert_eq!(search_terms("search  rust book \t\n"), "rust book");
    assert_eq!(search_terms("search\u{3000}x\u{a0}"), "x");
    assert_eq!(search_terms("research   "), "");
}

#[test]
fn decimal_rendering() {
    assert_eq!(decimal_bytes(0), b"0".to_vec());
    assert_eq!(decimal_bytes(42), b"42".to_vec());
    assert_eq!(decimal_bytes(u64::MAX), b"18446744073709551615".to_vec());
}

#[test]
fn log_appends_message_and_newline() {
    let mut log = DebugLog::new();
    assert_eq!(log.log("first"), Ok(()));
    assert_eq!(log.log("second"), Ok(()));
    assert_eq!(log.contents(), b"first\nsecond\n".to_vec());
    assert_eq!(log.position(), 13);
}

#[test]
fn log_refuses_message_that_reaches_capacity() {
    let mut log = DebugLog::new();
    let long = "x".repeat(DEBUG_BUFFER_SIZE - 10);
    assert_eq!(log.log(&long), Ok(()));
    let before = log.contents();
    // 4087 bytes used; a 9-byte message would reach 4096.
    assert_eq!(log.log("123456789"), Err(DebugLogError::DebugBufferFull));
    assert_eq!(log.contents(), before);
    assert_eq!(log.log("12345678"), Ok(()));
    assert_eq!(log.position(), DEBUG_BUFFER_SIZE);
    assert_eq!(log.log(""), Err(DebugLogError::DebugBufferFull));
}

#[test]
fn log_number_renders_decimal() {
    let mut log = DebugLog::new();
    assert_eq!(log.log_number(0), Ok(()));
    assert_eq!(log.log_number(1234567890), Ok(()));
    assert_eq!(log.contents(), b"0\n1234567890\n".to_vec());
}

#[test]
fn log_number_writes_all_twenty_digits() {
    let mut log = DebugLog::new();
    assert_eq!(log.log_number(u64::MAX), Ok(()));
    assert_eq!(log.contents(), b"18446744073709551615\n".to_vec());
    assert_eq!(log.position(), 21);
    let mut log = DebugLog::new();
    assert_eq!(log.log_number(10_000_000_000_000_000_000), Ok(()));
    assert_eq!(log.contents(), b"10000000000000000000\n".to_vec());
}

#[test]
fn log_all_stops_at_first_refusal() {
    let mut log = DebugLog::new();
    let long = "y".repeat(DEBUG_BUFFER_SIZE - 3);
    assert!(!log.log_all(&["ab", &long, "c"]));
    assert_eq!(log.contents(), b"ab\n".to_vec());
    let mut log = DebugLog::new();
    assert!(log.log_all(&["a", "b"]));
    assert_eq!(log.contents(), b"a\nb\n".to_vec());
}

#[test]
fn fixed_string_round_trip() {
    let s = FixedString::from_str("hello");
    assert_eq!(s.len(), 5);
    assert_eq!(s.to_text(), "hello".to_string());
    let empty = FixedString::new();
    assert_eq!(empty.len(), 0);
    assert_eq!(empty.to_text(), "".to_string());
}

#[test]
fn fixed_string_keeps_255_bytes() {
    let long = "z".repeat(300);
    let s = FixedString::from_str(&long);
    assert_eq!(s.len(), 255);
    assert_eq!(s.to_text(), "z".repeat(255));
    let copy = s.clone();
    assert_eq!(copy.to_text(), "z".repeat(255));
}

#[test]
fn fixed_string_cut_inside_a_character_is_not_text() {
    // 254 ASCII bytes and a two-byte character: the cut keeps its first byte only.
    let text = format!("{}é", "a".repeat(254));
    let s = FixedString::from_str(&text);
    assert_eq!(s.len(), 255);
    assert_eq!(s.to_text(), "".to_string());
}
