use kaku::pane_encoding::{decode_bytes_to_string, PaneEncoding, PaneInputEncoder, PaneOutputDecoder};

fn round_trip_text(encoding: PaneEncoding, text: &str) {
    let mut encoder = PaneInputEncoder::default();
    let mut decoder = PaneOutputDecoder::default();
    let encoded = encoder.encode(encoding, text.as_bytes());
    let decoded = decoder.decode(encoding, &encoded);
    assert_eq!(decoded, text.as_bytes().to_vec());
}

#[test]
fn utf8_passthrough() {
    let mut encoder = PaneInputEncoder::default();
    let mut decoder = PaneOutputDecoder::default();
    let data = "hello world".as_bytes();

    assert_eq!(encoder.encode(PaneEncoding::Utf8, data), data.to_vec());
    assert_eq!(decoder.decode(PaneEncoding::Utf8, data), data.to_vec());
}

#[test]
fn supports_all_encodings_roundtrip() {
    round_trip_text(PaneEncoding::Gbk, "你好");
    round_trip_text(PaneEncoding::Gb18030, "你好世界");
    round_trip_text(PaneEncoding::Big5, "繁體中文");
    round_trip_text(PaneEncoding::EucKr, "안녕하세요");
    round_trip_text(PaneEncoding::ShiftJis, "こんにちは");
}

#[test]
fn preserves_csi_esc_bracket_sequences() {
    let mut decoder = PaneOutputDecoder::default();
    let bytes = b"\x1b[31m";
    assert_eq!(decoder.decode(PaneEncoding::Gbk, bytes), bytes.to_vec());
}

#[test]
fn preserves_csi_single_byte_sequences() {
    let mut decoder = PaneOutputDecoder::default();
    let bytes = [0x9b, b'3', b'1', b'm'];
    assert_eq!(decoder.decode(PaneEncoding::Gbk, &bytes), bytes.to_vec());
}

#[test]
fn preserves_osc_and_dcs_sequences() {
    let mut decoder = PaneOutputDecoder::default();
    let osc = b"\x1b]0;title\x07";
    let dcs = b"\x1bPpayload\x1b\\";

    assert_eq!(decoder.decode(PaneEncoding::Gbk, osc), osc.to_vec());
    assert_eq!(decoder.decode(PaneEncoding::Gbk, dcs), dcs.to_vec());
}

#[test]
fn mixed_text_and_escape_decode() {
    let mut decoder = PaneOutputDecoder::default();

    let mut data = vec![0xc4, 0xe3];
    data.extend_from_slice(b"\x1b[0m");
    data.extend_from_slice(&[0xba, 0xc3]);

    let result = decoder.decode(PaneEncoding::Gbk, &data);
    let mut expected = "你".as_bytes().to_vec();
    expected.extend_from_slice(b"\x1b[0m");
    expected.extend_from_slice("好".as_bytes());
    assert_eq!(result, expected);
}

#[test]
fn split_multibyte_decode_is_buffered() {
    let mut decoder = PaneOutputDecoder::default();

    let part1 = [0xc4];
    let result1 = decoder.decode(PaneEncoding::Gbk, &part1);
    assert!(result1.is_empty());

    let part2 = [0xe3];
    let result2 = decoder.decode(PaneEncoding::Gbk, &part2);
    assert_eq!(result2, "你".as_bytes().to_vec());
}

#[test]
fn split_multibyte_encode_is_buffered() {
    let mut encoder = PaneInputEncoder::default();

    let first = [0xe4];
    let result1 = encoder.encode(PaneEncoding::Gbk, &first);
    assert!(result1.is_empty());

    let second = [0xbd, 0xa0];
    let result2 = encoder.encode(PaneEncoding::Gbk, &second);
    assert_eq!(result2, vec![0xc4, 0xe3]);
}

#[test]
fn decode_bytes_to_string_works_for_utf8_and_non_utf8() {
    let utf8 = decode_bytes_to_string(PaneEncoding::Utf8, "hello世界".as_bytes());
    assert_eq!(utf8, "hello世界".to_string());

    let gbk_bytes = [0xc4, 0xe3, 0xba, 0xc3];
    let text = decode_bytes_to_string(PaneEncoding::Gbk, &gbk_bytes);
    assert_eq!(text, "你好".to_string());
}

#[test]
fn escape_split_across_calls_passes_through() {
    let mut decoder = PaneOutputDecoder::default();
    let first = decoder.decode(PaneEncoding::Gbk, b"\x1b[3");
    let second = decoder.decode(PaneEncoding::Gbk, b"1m");
    let mut all = first.clone();
    all.extend_from_slice(&second);
    assert_eq!(all, b"\x1b[31m".to_vec());
}

#[test]
fn split_escape_sequence_passes_through() {
    let mut decoder = PaneOutputDecoder::default();
    assert!(decoder.decode(PaneEncoding::Gbk, b"\x1b[3").is_empty());
    assert_eq!(decoder.decode(PaneEncoding::Gbk, b"1m"), b"\x1b[31m".to_vec());

    let mut encoder = PaneInputEncoder::default();
    assert!(encoder.encode(PaneEncoding::Big5, b"\x1b]0;ti").is_empty());
    assert_eq!(encoder.encode(PaneEncoding::Big5, b"tle\x07"), b"\x1b]0;title\x07".to_vec());
}
