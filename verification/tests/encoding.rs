use lproj::encoding::decode;
use lproj::error::Error;
use lproj::strings::Localization;

fn utf16le(text: &str) -> Vec<u8> {
    let mut bytes = vec![0xFF, 0xFE];
    for unit in text.encode_utf16() {
        bytes.push((unit & 0xFF) as u8);
        bytes.push((unit >> 8) as u8);
    }
    bytes
}

#[test]
fn utf8_is_taken_as_it_is() {
    assert_eq!(decode("\"Grüße\" = \"x\";".as_bytes()), Ok("\"Grüße\" = \"x\";".to_string()));
    assert_eq!(decode(&[]), Ok(String::new()));
}

#[test]
fn utf8_mark_is_dropped() {
    assert_eq!(decode(&[0xEF, 0xBB, 0xBF, b'a', b'b']), Ok("ab".to_string()));
    assert_eq!(decode(&[0xEF, 0xBB, 0xBF]), Ok(String::new()));
}

#[test]
fn invalid_utf8_is_a_parse_error() {
    assert_eq!(decode(&[b'a', 0xC3, 0x28]), Err(Error::Parse));
    assert_eq!(decode(&[0xEF, 0xBB, 0xBF, 0x80]), Err(Error::Parse));
    assert_eq!(decode(&[0xFE, 0xFF, 0x00, 0x61]), Err(Error::Parse));
}

#[test]
fn utf16_little_endian_is_decoded() {
    assert_eq!(decode(&[0xFF, 0xFE, 0x61, 0x00, 0xE4, 0x00]), Ok("aä".to_string()));
    assert_eq!(decode(&[0xFF, 0xFE]), Ok(String::new()));
    assert_eq!(decode(&[0xFF, 0xFE, 0x3D, 0xD8, 0x00, 0xDE]), Ok("\u{1F600}".to_string()));
    assert_eq!(decode(&[0xFF, 0xFE, 0x34, 0x12]), Ok("\u{1234}".to_string()));
}

#[test]
fn broken_utf16_is_a_parse_error() {
    assert_eq!(decode(&[0xFF, 0xFE, 0x61]), Err(Error::Parse));
    assert_eq!(decode(&[0xFF, 0xFE, 0x3D, 0xD8]), Err(Error::Parse));
    assert_eq!(decode(&[0xFF, 0xFE, 0x00, 0xDE, 0x61, 0x00]), Err(Error::Parse));
}

#[test]
fn parse_reads_utf16_files() {
    let bytes = utf16le("/* Gruß */\r\n\"Hello\" = \"Grüß Gott\";\r\n");
    let loc = Localization::parse("de", &bytes, false).unwrap();
    assert_eq!(loc.locale, "de");
    assert_eq!(loc.translations.len(), 1);
    let t = loc.translations.get("hello").unwrap();
    assert_eq!(t.target, "Grüß Gott");
    assert_eq!(t.comment, "/* Gruß */");
}

#[test]
fn parse_reads_utf8_files_with_mark() {
    let mut bytes = vec![0xEF, 0xBB, 0xBF];
    bytes.extend_from_slice("\"Hello\" = \"Hallo\";\n".as_bytes());
    let loc = Localization::parse("de", &bytes, false).unwrap();
    assert_eq!(loc.translations.get("hello").unwrap().target, "Hallo");
}

#[test]
fn parse_refuses_bad_bytes() {
    assert_eq!(Localization::parse("de", &[0xFF, 0xFF], false).err(), Some(Error::Parse));
    assert_eq!(Localization::parse("de", &[0xFF, 0xFE, 0x00], true).err(), Some(Error::Parse));
}
