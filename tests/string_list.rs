use xcb_util::util::utf8::{from, into, DecodeError};

fn owned(items: &[&str]) -> Vec<String> {
    items.iter().map(|s| s.to_string()).collect()
}

#[test]
fn encode_example_list() {
    assert_eq!(from(&["a", "bb", ""]), vec![0x61, 0x00, 0x62, 0x62, 0x00, 0x00]);
}

#[test]
fn decode_example_list() {
    let bytes = [0x61u8, 0x00, 0x62, 0x62, 0x00, 0x00];
    assert_eq!(into(&bytes, 6), Ok(owned(&["a", "bb", ""])));
}

#[test]
fn encode_empty_list() {
    assert_eq!(from(&[]), Vec::<u8>::new());
}

#[test]
fn decode_single_terminator() {
    assert_eq!(into(&[0u8], 1), Ok(owned(&[""])));
}

#[test]
fn round_trip_lists() {
    let lists: Vec<Vec<&str>> = vec![
        vec!["x"],
        vec!["", ""],
        vec!["WM_NAME", "Firefox", "caf\u{e9}", "\u{1F600}"],
        vec!["one two", "", "three"],
    ];
    for list in lists {
        let bytes = from(&list);
        let length = bytes.len() as u32;
        assert_eq!(into(&bytes, length), Ok(owned(&list)));
    }
}

#[test]
fn multibyte_segments_keep_their_text() {
    let bytes = [0x63u8, 0x61, 0x66, 0xC3, 0xA9, 0x00, 0xE2, 0x82, 0xAC, 0x00];
    let decoded = into(&bytes, 10).unwrap();
    assert_eq!(decoded, owned(&["caf\u{e9}", "\u{20AC}"]));
    assert_eq!(decoded[0].chars().count(), 4);
}

#[test]
fn encode_multibyte_bytes() {
    assert_eq!(from(&["\u{e9}"]), vec![0xC3, 0xA9, 0x00]);
}

#[test]
fn decode_uses_declared_length_only() {
    let bytes = [0x61u8, 0x00, 0x62, 0x00, 0xFF];
    assert_eq!(into(&bytes, 2), Ok(owned(&["a"])));
    assert_eq!(into(&bytes, 4), Ok(owned(&["a", "b"])));
}

#[test]
fn decode_zero_length_is_rejected() {
    assert_eq!(into(&[0u8], 0), Err(DecodeError::Empty));
}

#[test]
fn decode_length_past_buffer_is_rejected() {
    assert_eq!(into(&[0x61u8, 0x00], 3), Err(DecodeError::Truncated));
}

#[test]
fn decode_missing_terminator_is_rejected() {
    assert_eq!(into(&[0x61u8, 0x62], 2), Err(DecodeError::Unterminated));
}

#[test]
fn decode_invalid_utf8_is_rejected() {
    assert_eq!(into(&[0x61u8, 0x00, 0xC3, 0x00], 4), Err(DecodeError::InvalidUtf8));
    assert_eq!(into(&[0xFFu8, 0x00], 2), Err(DecodeError::InvalidUtf8));
}
