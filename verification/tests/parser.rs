use lproj::error::Error;
use lproj::strings::{resolve_path_locale, Localization};

#[test]
fn parses_one_entry() {
    let loc = Localization::from_params("de", "\"Hello\" = \"Hallo\";\n", false).unwrap();
    assert_eq!(loc.locale, "de");
    assert_eq!(loc.translations.len(), 1);
    let t = loc.translations.get("hello").unwrap();
    assert_eq!(t.source, "Hello");
    assert_eq!(t.target, "Hallo");
    assert_eq!(t.comment, "");
}

#[test]
fn every_valid_entry_is_kept_verbatim() {
    let content = "\"One Way\" = \"Ein Weg\";\n\"TWO\" = \"Zwei  \";\n\"three\" = \"DREI\";\n";
    let loc = Localization::from_params("de", content, false).unwrap();
    assert_eq!(loc.translations.len(), 3);
    let one = loc.translations.get("one way").unwrap();
    assert_eq!((one.source.as_str(), one.target.as_str()), ("One Way", "Ein Weg"));
    let two = loc.translations.get("two").unwrap();
    assert_eq!((two.source.as_str(), two.target.as_str()), ("TWO", "Zwei  "));
    let three = loc.translations.get("three").unwrap();
    assert_eq!((three.source.as_str(), three.target.as_str()), ("three", "DREI"));
}

#[test]
fn keys_keep_the_order_of_the_file() {
    let content = "\"b\" = \"2\";\n\"a\" = \"1\";\n\"c\" = \"3\";\n";
    let loc = Localization::from_params("de", content, false).unwrap();
    assert_eq!(loc.translations.key_at(0), "b");
    assert_eq!(loc.translations.key_at(1), "a");
    assert_eq!(loc.translations.key_at(2), "c");
    assert_eq!(loc.translations.value_at(1).target, "1");
}

#[test]
fn keys_differing_in_case_collide_and_the_last_wins() {
    let content = "\"Activity\" = \"first\";\n\"activity\" = \"second\";\n";
    let loc = Localization::from_params("en", content, false).unwrap();
    assert_eq!(loc.translations.len(), 1);
    let t = loc.translations.get("activity").unwrap();
    assert_eq!(t.source, "activity");
    assert_eq!(t.target, "second");
    assert!(!loc.translations.contains_key("Activity"));
}

#[test]
fn key_is_the_lowercase_of_the_source() {
    let loc = Localization::from_params("de", "\"ÄPFEL Und Birnen\" = \"x\";", false).unwrap();
    assert!(loc.translations.contains_key("äpfel und birnen"));
    assert!(!loc.translations.contains_key("ÄPFEL Und Birnen"));
    assert_eq!(loc.translations.get("äpfel und birnen").unwrap().source, "ÄPFEL Und Birnen");
}

#[test]
fn inversed_exchanges_source_and_target() {
    let content = "\"greeting\" = \"Hello\";\n\"farewell\" = \"Bye\";\n";
    let plain = Localization::from_params("en", content, false).unwrap();
    let turned = Localization::from_params("en", content, true).unwrap();
    assert_eq!(plain.translations.len(), 2);
    assert_eq!(turned.translations.len(), 2);
    let p = plain.translations.get("greeting").unwrap();
    assert_eq!((p.source.as_str(), p.target.as_str()), ("greeting", "Hello"));
    let t = turned.translations.get("hello").unwrap();
    assert_eq!((t.source.as_str(), t.target.as_str()), ("Hello", "greeting"));
    assert!(!turned.translations.contains_key("greeting"));
    assert!(!plain.translations.contains_key("hello"));
    let t = turned.translations.get("bye").unwrap();
    assert_eq!((t.source.as_str(), t.target.as_str()), ("Bye", "farewell"));
}

#[test]
fn malformed_line_is_passed_over() {
    let content = "\"key\" = noquotes;\n\"good\" = \"gut\";\n";
    let loc = Localization::from_params("de", content, false).unwrap();
    assert_eq!(loc.translations.len(), 1);
    assert!(!loc.translations.contains_key("key"));
    assert!(loc.translations.contains_key("good"));
}

#[test]
fn line_with_three_segments_is_passed_over() {
    let content = "\"a\" \"b\" \"c\";\nplain words\n\"x\" = \"y\";\n";
    let loc = Localization::from_params("de", content, false).unwrap();
    assert_eq!(loc.translations.len(), 1);
    assert_eq!(loc.translations.get("x").unwrap().target, "y");
}

#[test]
fn segment_with_equals_sign_is_discarded() {
    let loc = Localization::from_params("de", "\"a=b\" = \"c\";\n", false).unwrap();
    assert_eq!(loc.translations.len(), 0);
}

#[test]
fn empty_text_has_no_entries() {
    let loc = Localization::from_params("de", "", false).unwrap();
    assert_eq!(loc.translations.len(), 0);
    let loc = Localization::from_params("de", "\n\n\r\n", false).unwrap();
    assert_eq!(loc.translations.len(), 0);
}

#[test]
fn last_line_needs_no_line_feed() {
    let loc = Localization::from_params("de", "\"a\" = \"b\";", false).unwrap();
    assert_eq!(loc.translations.get("a").unwrap().target, "b");
}

#[test]
fn carriage_return_before_line_feed_is_not_part_of_the_line() {
    let loc = Localization::from_params("de", "\"a\" = \"b\";\r\n\"c\" = \"d\";\r\n", false).unwrap();
    assert_eq!(loc.translations.len(), 2);
    assert_eq!(loc.translations.get("a").unwrap().target, "b");
    assert_eq!(loc.translations.get("c").unwrap().target, "d");
}

#[test]
fn carriage_return_at_the_very_end_stays_in_the_line() {
    let loc = Localization::from_params("de", "\"a\" = \"b\";\r", false).unwrap();
    assert_eq!(loc.translations.len(), 0);
}

#[test]
fn block_comment_is_attached_to_the_next_entry() {
    let content = "/* Title of the screen */\n\"Title\" = \"Titel\";\n";
    let loc = Localization::from_params("de", content, false).unwrap();
    assert_eq!(loc.translations.get("title").unwrap().comment, "/* Title of the screen */");
}

#[test]
fn comment_over_several_lines_is_gathered_without_separators() {
    let content = "/* first\nsecond\n\nthird */\n\"a\" = \"b\";\n";
    let loc = Localization::from_params("de", content, false).unwrap();
    assert_eq!(loc.translations.len(), 1);
    assert_eq!(loc.translations.get("a").unwrap().comment, "/* firstsecondthird */");
}

#[test]
fn entries_inside_an_open_comment_are_comment() {
    let content = "/* open\n\"a\" = \"b\";\nclosed */\n\"c\" = \"d\";\n";
    let loc = Localization::from_params("de", content, false).unwrap();
    assert_eq!(loc.translations.len(), 1);
    assert_eq!(loc.translations.get("c").unwrap().comment, "/* open\"a\" = \"b\";closed */");
}

#[test]
fn comment_is_cleared_once_attached() {
    let content = "/* one */\n\"a\" = \"1\";\n\"b\" = \"2\";\n/* three */\n\"c\" = \"3\";\n";
    let loc = Localization::from_params("de", content, false).unwrap();
    assert_eq!(loc.translations.get("a").unwrap().comment, "/* one */");
    assert_eq!(loc.translations.get("b").unwrap().comment, "");
    assert_eq!(loc.translations.get("c").unwrap().comment, "/* three */");
}

#[test]
fn comment_survives_a_line_that_is_passed_over() {
    let content = "/* one */\nnot an entry\n\"a\" = \"1\";\n";
    let loc = Localization::from_params("de", content, false).unwrap();
    assert_eq!(loc.translations.get("a").unwrap().comment, "/* one */");
}

#[test]
fn line_comment_stays_open_until_a_line_closes_it() {
    let content = "// note\n\"a\" = \"1\";\n*/\n\"b\" = \"2\";\n";
    let loc = Localization::from_params("de", content, false).unwrap();
    assert_eq!(loc.translations.len(), 1);
    assert_eq!(loc.translations.get("b").unwrap().comment, "// note\"a\" = \"1\";*/");
}

#[test]
fn line_comment_that_ends_with_the_closing_mark_is_closed() {
    let content = "// note */\n\"a\" = \"1\";\n";
    let loc = Localization::from_params("de", content, false).unwrap();
    assert_eq!(loc.translations.get("a").unwrap().comment, "// note */");
}

#[test]
fn path_names_its_locale() {
    assert_eq!(resolve_path_locale("/proj/de.lproj/Localizable.strings"), Some("de"));
    assert_eq!(resolve_path_locale("/proj/Localizable.strings"), None);
}

#[test]
fn innermost_locale_segment_wins() {
    assert_eq!(resolve_path_locale("/a/en.lproj/b/pt-BR.lproj/x.strings"), Some("pt-BR"));
    assert_eq!(resolve_path_locale("fr.lproj"), Some("fr"));
    assert_eq!(resolve_path_locale("/x/.lproj/y"), Some(""));
    assert_eq!(resolve_path_locale(""), None);
    assert_eq!(resolve_path_locale("/x/de.lproj.bak/y"), None);
    assert_eq!(resolve_path_locale("https://host/repo/zh-Hans.lproj/Main.strings"), Some("zh-Hans"));
    assert_eq!(resolve_path_locale("/x/ä.lproj/y"), Some("ä"));
}

#[test]
fn from_file_stamps_the_locale_of_the_path() {
    let loc = Localization::from_file(
        "/proj/de.lproj/Localizable.strings",
        "\"Hello\" = \"Hallo\";\n".as_bytes(),
        false,
    )
    .unwrap();
    assert_eq!(loc.locale, "de");
    assert_eq!(loc.translations.get("hello").unwrap().target, "Hallo");
}

#[test]
fn from_file_without_locale_in_the_path_fails() {
    let r = Localization::from_file("/proj/Localizable.strings", "\"a\" = \"b\";".as_bytes(), false);
    assert_eq!(r.err(), Some(Error::LocaleResolution));
}

#[test]
fn from_file_reports_bad_bytes_first() {
    let r = Localization::from_file("/proj/Localizable.strings", &[0x22, 0xC3, 0x28], false);
    assert_eq!(r.err(), Some(Error::Parse));
    let r = Localization::from_file("/proj/de.lproj/Localizable.strings", &[0xFF], false);
    assert_eq!(r.err(), Some(Error::Parse));
}

#[test]
fn write_to_file_accepts_every_path() {
    assert_eq!(Localization::write_to_file("/proj/de.lproj/Localizable.strings"), Ok(()));
    assert_eq!(Localization::write_to_file(""), Ok(()));
}

#[test]
fn clone_keeps_everything() {
    let content = "/* c */\n\"b\" = \"2\";\n\"a\" = \"1\";\n";
    let loc = Localization::from_params("de", content, false).unwrap();
    let copy = loc.clone();
    assert_eq!(copy.locale, "de");
    assert_eq!(copy.translations.len(), 2);
    assert_eq!(copy.translations.key_at(0), "b");
    assert_eq!(copy.translations.get("b").unwrap().comment, "/* c */");
    assert_eq!(copy.translations.get("a").unwrap().target, "1");
}
