use veq::connection::{connection_string, parse_connection_string, COMPRESSION_LEVEL};

#[test]
fn connection_string_is_base64_of_zstd() {
    let data: Vec<u8> = (0..200u32).map(|n| (n % 7) as u8).collect();
    let text = connection_string(&data).unwrap();
    let mut compressed = Vec::new();
    zstd::stream::copy_encode(&data[..], &mut compressed, COMPRESSION_LEVEL).unwrap();
    assert_eq!(text, base64::encode(&compressed));
    assert_ne!(text.as_bytes(), &data[..]);
}

#[test]
fn connection_string_round_trips_with_blanks_and_line_breaks() {
    let data = b"the connection information".to_vec();
    let text = connection_string(&data).unwrap();
    let (a, b) = text.split_at(text.len() / 2);
    let typed = format!(" {} \n{}\n", a, b);
    assert_eq!(parse_connection_string(&typed), Some(data));
}

#[test]
fn garbage_connection_string_is_refused() {
    assert_eq!(parse_connection_string("not base64 at all!"), None);
    // valid base64 of bytes that are not a zstd frame
    assert_eq!(parse_connection_string(&base64::encode(b"hello")), None);
}
