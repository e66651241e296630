use lavish::facts::{self, Error, Factual, Reader, TranslationTables, ValueReadError};
use lavish::msgpack::Marker;
use lavish::services::sample::{Cookie, Emoji};

fn tables(cookie: Vec<Option<u32>>, emoji: Vec<Option<u32>>) -> TranslationTables {
    TranslationTables { sample__Cookie: cookie, sample__Emoji: emoji }
}

fn cookie(key: &str, value: &str, comment: Option<&str>) -> Cookie {
    Cookie { key: key.to_string(), value: value.to_string(), comment: comment.map(|c| c.to_string()) }
}

fn encode<T: Factual<TranslationTables>>(t: &T, tt: &TranslationTables) -> Vec<u8> {
    let mut buf = Vec::new();
    facts::write(t, tt, &mut buf).unwrap();
    buf
}

fn read<T: Factual<TranslationTables>>(rd: &mut Reader) -> Result<T, Error> {
    T::read(rd)
}

fn str_wire(s: &str) -> Vec<u8> {
    let mut v = vec![0xa0 | s.len() as u8];
    v.extend_from_slice(s.as_bytes());
    v
}

#[test]
fn string_is_a_fixstr() {
    let tt = TranslationTables::identity();
    assert_eq!(encode(&"hi".to_string(), &tt), vec![0xa2, b'h', b'i']);
}

#[test]
fn long_string_uses_str8() {
    let tt = TranslationTables::identity();
    let s = "x".repeat(40);
    let bytes = encode(&s, &tt);
    assert_eq!(&bytes[..2], &[0xd9, 40]);
    assert_eq!(bytes.len(), 42);
    let mut rd = Reader::new(bytes);
    assert_eq!(read::<String>(&mut rd).unwrap(), s);
}

#[test]
fn longer_string_uses_str16() {
    let tt = TranslationTables::identity();
    let s = "y".repeat(300);
    let bytes = encode(&s, &tt);
    assert_eq!(&bytes[..3], &[0xda, 0x01, 0x2c]);
    let mut rd = Reader::new(bytes);
    assert_eq!(read::<String>(&mut rd).unwrap(), s);
}

#[test]
fn none_is_nil() {
    let tt = TranslationTables::identity();
    let none: Option<String> = None;
    assert_eq!(encode(&none, &tt), vec![0xc0]);
    let mut rd = Reader::new(vec![0xc0]);
    assert_eq!(read::<Option<String>>(&mut rd).unwrap(), None);
}

#[test]
fn some_is_the_value() {
    let tt = TranslationTables::identity();
    let some = Some("ok".to_string());
    let bytes = encode(&some, &tt);
    assert_eq!(bytes, vec![0xa2, b'o', b'k']);
    let mut rd = Reader::new(bytes);
    assert_eq!(read::<Option<String>>(&mut rd).unwrap(), some);
}

#[test]
fn vec_is_an_array() {
    let tt = TranslationTables::identity();
    let v = vec!["a".to_string(), "bc".to_string()];
    assert_eq!(encode(&v, &tt), vec![0x92, 0xa1, b'a', 0xa2, b'b', b'c']);
}

#[test]
fn sixteen_items_use_array16() {
    let tt = TranslationTables::identity();
    let v: Vec<String> = (0..16).map(|i| i.to_string()).collect();
    let bytes = encode(&v, &tt);
    assert_eq!(&bytes[..3], &[0xdc, 0x00, 0x10]);
    let mut rd = Reader::new(bytes);
    assert_eq!(read::<Vec<String>>(&mut rd).unwrap(), v);
}

#[test]
fn cookie_identity_layout() {
    let tt = TranslationTables::identity();
    let c = cookie("name", "Overland", Some("hi"));
    let mut expected = vec![0x93];
    expected.extend(str_wire("name"));
    expected.extend(str_wire("Overland"));
    expected.extend(str_wire("hi"));
    assert_eq!(encode(&c, &tt), expected);
}

#[test]
fn cookie_for_a_peer_without_comment() {
    // the peer's cookie has key and value only: the comment is not sent
    let tt = tables(vec![Some(0), Some(1)], vec![Some(0), Some(1)]);
    let c = cookie("k", "v", Some("dropped"));
    let mut expected = vec![0x92];
    expected.extend(str_wire("k"));
    expected.extend(str_wire("v"));
    assert_eq!(encode(&c, &tt), expected);
}

#[test]
fn cookie_for_a_peer_with_swapped_fields() {
    let tt = tables(vec![Some(1), Some(0)], vec![Some(0), Some(1)]);
    let c = cookie("k", "v", None);
    let mut expected = vec![0x92];
    expected.extend(str_wire("v"));
    expected.extend(str_wire("k"));
    assert_eq!(encode(&c, &tt), expected);
}

#[test]
fn cookie_for_a_peer_with_an_unknown_field() {
    let tt = tables(vec![None, Some(1), Some(2)], vec![Some(0), Some(1)]);
    let c = cookie("k", "v", None);
    let mut expected = vec![0x93, 0xc0];
    expected.extend(str_wire("v"));
    expected.push(0xc0);
    assert_eq!(encode(&c, &tt), expected);
}

#[test]
fn cookies_read_back() {
    let tt = TranslationTables::identity();
    let cookies = vec![cookie("name", "Knytt Underground", Some("Open for collabs")), cookie("a", "b", None)];
    let mut bytes = encode(&cookies, &tt);
    bytes.push(0x2a);
    let mut rd = Reader::new(bytes);
    let back = read::<Vec<Cookie>>(&mut rd).unwrap();
    assert_eq!(back.len(), 2);
    assert_eq!(back[0].key, "name");
    assert_eq!(back[0].value, "Knytt Underground");
    assert_eq!(back[0].comment.as_deref(), Some("Open for collabs"));
    assert_eq!(back[1].key, "a");
    assert_eq!(back[1].value, "b");
    assert_eq!(back[1].comment, None);
}

#[test]
fn emojis_read_back() {
    let tt = TranslationTables::identity();
    let emojis = vec![
        Emoji { shortcode: "smile".to_string(), image_url: "https://example.org/smile.png".to_string() },
        Emoji { shortcode: "café".to_string(), image_url: "ünïcode".to_string() },
    ];
    let bytes = encode(&emojis, &tt);
    let mut rd = Reader::new(bytes);
    let back = read::<Vec<Emoji>>(&mut rd).unwrap();
    assert_eq!(back.len(), 2);
    assert_eq!(back[1].shortcode, "café");
    assert_eq!(back[1].image_url, "ünïcode");
}

#[test]
fn struct_with_wrong_field_count() {
    let mut bytes = vec![0x92];
    bytes.extend(str_wire("k"));
    bytes.extend(str_wire("v"));
    let mut rd = Reader::new(bytes);
    assert_eq!(read::<Cookie>(&mut rd).unwrap_err(), Error::InvalidStructLength { expected: 3, actual: 2 });
    let mut rd = Reader::new(vec![0x93]);
    assert_eq!(read::<Emoji>(&mut rd).unwrap_err(), Error::InvalidStructLength { expected: 2, actual: 3 });
}

#[test]
fn empty_input_has_no_marker() {
    let mut rd = Reader::new(vec![]);
    assert_eq!(read::<String>(&mut rd).unwrap_err(), Error::MarkerReadError);
    let mut rd = Reader::new(vec![]);
    assert_eq!(read::<Option<String>>(&mut rd).unwrap_err(), Error::MarkerReadError);
}

#[test]
fn type_mismatch_reports_the_marker() {
    let mut rd = Reader::new(vec![0x91, 0xa0]);
    assert_eq!(
        read::<String>(&mut rd).unwrap_err(),
        Error::ValueReadError(ValueReadError::TypeMismatch(Marker::FixArray(1)))
    );
    let mut rd = Reader::new(vec![0x05]);
    assert_eq!(
        read::<Vec<String>>(&mut rd).unwrap_err(),
        Error::ValueReadError(ValueReadError::TypeMismatch(Marker::Other(0x05)))
    );
}

#[test]
fn truncated_length_is_a_data_error() {
    let mut rd = Reader::new(vec![0xd9]);
    assert_eq!(
        read::<String>(&mut rd).unwrap_err(),
        Error::ValueReadError(ValueReadError::InvalidDataRead)
    );
    let mut rd = Reader::new(vec![0xdd, 0, 0]);
    assert_eq!(
        read::<Vec<String>>(&mut rd).unwrap_err(),
        Error::ValueReadError(ValueReadError::InvalidDataRead)
    );
}

#[test]
fn truncated_string_is_an_io_error() {
    let mut rd = Reader::new(vec![0xa3, b'a']);
    assert_eq!(read::<String>(&mut rd).unwrap_err(), Error::IO);
}

#[test]
fn invalid_utf8_is_a_decode_error() {
    let mut rd = Reader::new(vec![0xa2, 0xff, 0xfe]);
    assert_eq!(read::<String>(&mut rd).unwrap_err(), Error::DecodeStringError);
}

#[test]
fn array32_header_is_read() {
    // an array 32 header that announces no items
    let mut rd = Reader::new(vec![0xdd, 0, 0, 0, 0]);
    assert_eq!(read::<Vec<String>>(&mut rd).unwrap(), Vec::<String>::new());
}

#[test]
fn nested_option_loses_some_none() {
    // the outer option writes nothing of its own, so `Some(None)` reads back as `None`
    let tt = TranslationTables::identity();
    let v: Option<Option<String>> = Some(None);
    let bytes = encode(&v, &tt);
    assert_eq!(bytes, vec![0xc0]);
    let mut rd = Reader::new(bytes);
    assert_eq!(read::<Option<Option<String>>>(&mut rd).unwrap(), None);
}

#[test]
fn subread_reads_the_named_type() {
    let mut rd = Reader::new(str_wire("abc"));
    let s: String = facts::subread::<TranslationTables, String>(&mut rd).unwrap();
    assert_eq!(s, "abc");
}

#[test]
fn identity_tables() {
    let tt = TranslationTables::identity();
    assert_eq!(tt.sample__Cookie, vec![Some(0), Some(1), Some(2)]);
    assert_eq!(tt.sample__Emoji, vec![Some(0), Some(1)]);
}

#[test]
fn borrowed_str_writes_like_string() {
    let tt = TranslationTables::identity();
    let s: &str = "hé";
    assert_eq!(encode(&s, &tt), encode(&"hé".to_string(), &tt));
    assert_eq!(encode(&s, &tt), vec![0xa3, b'h', 0xc3, 0xa9]);
}

#[test]
fn borrowed_slice_writes_like_vec() {
    let tt = TranslationTables::identity();
    let v = vec![cookie("a", "b", None)];
    let s: &[Cookie] = &v[..];
    let bytes = encode(&s, &tt);
    assert_eq!(bytes, encode(&v, &tt));
    let mut rd = Reader::new(bytes);
    let back = read::<Vec<Cookie>>(&mut rd).unwrap();
    assert_eq!(back[0].value, "b");
}

#[test]
fn wrong_field_count_consumes_only_the_header() {
    let mut rd = Reader::new(vec![0x92, 0xa1, b'k', 0xa1, b'v']);
    assert_eq!(read::<Cookie>(&mut rd).unwrap_err(), Error::InvalidStructLength { expected: 3, actual: 2 });
    assert_eq!(read::<String>(&mut rd).unwrap(), "k");
    assert_eq!(read::<String>(&mut rd).unwrap(), "v");
}

#[test]
fn type_mismatch_consumes_the_marker() {
    let mut rd = Reader::new(vec![0xc0, 0xa1, b'x']);
    assert_eq!(
        read::<String>(&mut rd).unwrap_err(),
        Error::ValueReadError(ValueReadError::TypeMismatch(Marker::Null))
    );
    assert_eq!(read::<String>(&mut rd).unwrap(), "x");
}

#[test]
fn short_read_takes_what_is_left() {
    let mut rd = Reader::new(vec![0xa5, b'a', b'b']);
    assert_eq!(read::<String>(&mut rd).unwrap_err(), Error::IO);
    assert_eq!(read::<String>(&mut rd).unwrap_err(), Error::MarkerReadError);
    let mut rd = Reader::new(vec![0xdc, 0x01]);
    assert_eq!(
        read::<Vec<String>>(&mut rd).unwrap_err(),
        Error::ValueReadError(ValueReadError::InvalidDataRead)
    );
    assert_eq!(read::<String>(&mut rd).unwrap_err(), Error::MarkerReadError);
}

#[test]
fn invalid_utf8_consumes_the_string() {
    let mut rd = Reader::new(vec![0xa1, 0xff, 0xa1, b'z']);
    assert_eq!(read::<String>(&mut rd).unwrap_err(), Error::DecodeStringError);
    assert_eq!(read::<String>(&mut rd).unwrap(), "z");
}

#[test]
fn emojis_from_a_json_object() {
    let emojis = lavish::demo::emojis_from_json(r#"{"smile": "https://e.org/smile.png", "cat": "cat.png"}"#).unwrap();
    assert_eq!(emojis.len(), 2);
    assert_eq!(emojis[0].shortcode, "smile");
    assert_eq!(emojis[0].image_url, "https://e.org/smile.png");
    assert_eq!(emojis[1].shortcode, "cat");
    assert_eq!(emojis[1].image_url, "cat.png");
    assert!(lavish::demo::emojis_from_json("[1, 2]").is_none());
    assert!(lavish::demo::emojis_from_json("{not json").is_none());
}
