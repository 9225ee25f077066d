use lproj::locales::{
    has_strings_extension, keeps_file, locale_dir, locales_of, read_all, translate_in, DirEntry,
    FileData,
};
use lproj::proj::Project;
use lproj::source::LocalDirSource;

fn dir(name: &str) -> DirEntry {
    DirEntry { name: name.to_string(), is_dir: true }
}

fn plain(name: &str) -> DirEntry {
    DirEntry { name: name.to_string(), is_dir: false }
}

fn file(name: &str, content: &str) -> FileData {
    FileData { name: name.to_string(), content: content.as_bytes().to_vec() }
}

#[test]
fn locale_directory_path() {
    assert_eq!(locale_dir("/proj", "de"), "/proj/de.lproj");
    assert_eq!(locale_dir("", "pt-BR"), "/pt-BR.lproj");
}

#[test]
fn strings_extension() {
    assert!(has_strings_extension("Localizable.strings"));
    assert!(has_strings_extension("a.b.strings"));
    assert!(has_strings_extension("..strings"));
    assert!(!has_strings_extension(".strings"));
    assert!(!has_strings_extension("Localizable.stringsdict"));
    assert!(!has_strings_extension("Localizable.strings.bak"));
    assert!(!has_strings_extension("strings"));
    assert!(!has_strings_extension(""));
}

#[test]
fn locales_are_the_lproj_directories_in_listing_order() {
    let entries = vec![
        dir("fr.lproj"),
        plain("README.md"),
        dir("Assets"),
        dir("en.lproj"),
        plain("de.lproj"),
        dir("pt-BR.lproj"),
        dir(".lproj"),
    ];
    assert_eq!(locales_of(&entries), vec!["fr", "en", "pt-BR", ""]);
    assert_eq!(locales_of(&vec![]), Vec::<String>::new());
}

#[test]
fn project_lists_its_locales() {
    let project = Project { root: "/proj" };
    let entries = vec![dir("en.lproj"), dir("de.lproj"), plain("x.lproj")];
    let mut found = project.available_locales(&entries);
    found.sort();
    assert_eq!(found, vec!["de", "en"]);
    let source = LocalDirSource { root: "/proj".to_string() };
    let mut found = source.available_locales(&entries).unwrap();
    found.sort();
    assert_eq!(found, vec!["de", "en"]);
}

#[test]
fn unreadable_file_does_not_stop_the_others() {
    let files = vec![
        file("A.strings", "\"a\" = \"1\";\n"),
        FileData { name: "Bad.strings".to_string(), content: vec![b'"', 0xFF, b'"'] },
        file("notes.txt", "\"n\" = \"0\";\n"),
        file("C.strings", "\"c\" = \"3\";\n"),
    ];
    let project = Project { root: "/proj" };
    let found = project.localizations_for_locale("de", &files);
    assert_eq!(found.len(), 2);
    assert_eq!(found[0].locale, "de");
    assert_eq!(found[0].translations.get("a").unwrap().target, "1");
    assert_eq!(found[1].locale, "de");
    assert_eq!(found[1].translations.get("c").unwrap().target, "3");
}

#[test]
fn files_of_a_directory_that_names_no_locale_are_left_out() {
    let files = vec![file("A.strings", "\"a\" = \"1\";\n")];
    assert_eq!(read_all("/proj/de", &files, false).len(), 0);
    assert_eq!(read_all("/proj/de.lproj", &files, false).len(), 1);
}

#[test]
fn lookup_takes_the_first_file_that_holds_the_key() {
    let files = vec![
        file("A.strings", "\"x\" = \"1\";\n"),
        file("B.strings", "\"k\" = \"first\";\n"),
        file("C.strings", "\"k\" = \"second\";\n"),
    ];
    assert_eq!(translate_in("/p/de.lproj", &files, "k", false), Some("first".to_string()));
    assert_eq!(translate_in("/p/de.lproj", &files, "K", false), None);
    assert_eq!(translate_in("/p/de.lproj", &files, "first", true), Some("k".to_string()));
    assert_eq!(translate_in("/p/de.lproj", &files, "missing", false), None);
}

#[test]
fn project_translates_from_local_files() {
    let base = vec![file("Localizable.strings", "\"Hello\" = \"Hello\";\n\"Bye\" = \"Bye\";\n")];
    let target = vec![file("Localizable.strings", "\"Hello\" = \"Hallo\";\n")];
    let project = Project { root: "/proj" };
    assert_eq!(project.translate("Hello", "de", &base, &target), Ok(Some("Hallo".to_string())));
    assert_eq!(project.translate("HELLO", "de", &base, &target), Ok(Some("Hallo".to_string())));
    assert_eq!(project.translate("Bye", "de", &base, &target), Ok(None));
    assert_eq!(project.translate("Unknown", "de", &base, &target), Ok(None));
    assert_eq!(
        project.translate_in_dir("hello", "/proj/de.lproj", &target, false),
        Ok(Some("Hallo".to_string()))
    );
}

#[test]
fn phrase_must_be_in_the_base_files() {
    let base = vec![file("Localizable.strings", "\"Other\" = \"Other\";\n")];
    let target = vec![file("Localizable.strings", "\"Hello\" = \"Hallo\";\n")];
    let project = Project { root: "/proj" };
    assert_eq!(project.translate("Hello", "de", &base, &target), Ok(None));
}

#[test]
fn base_files_are_keyed_by_the_phrase_whichever_field_holds_it() {
    let base = vec![file("Localizable.strings", "\"greeting\" = \"Hello\";\n")];
    let target = vec![file("Localizable.strings", "\"Hello\" = \"Hallo\";\n")];
    let source = LocalDirSource { root: "/proj".to_string() };
    assert_eq!(source.translate("Hello", "de", &base, &target), Ok(Some("Hallo".to_string())));
    assert_eq!(source.translate("greeting", "de", &base, &target), Ok(None));
    assert_eq!(
        source.translate_in_dir("hello", "/proj/en.lproj", &base, true),
        Ok(Some("greeting".to_string()))
    );
}

#[test]
fn project_files_are_filtered() {
    let none: Vec<String> = vec![];
    assert!(keeps_file("/p/de.lproj/Main.strings", "Main.strings", true, &none));
    assert!(!keeps_file("/p/de.lproj/Main.strings", "Main.strings", false, &none));
    assert!(!keeps_file("/p/.git/de.lproj/Main.strings", "Main.strings", true, &none));
    assert!(!keeps_file("/p/de.lproj/Main.txt", "Main.txt", true, &none));
    assert!(keeps_file("/p/de.lproj/Main.stringsdict", "Main.stringsdict", true, &none));
    let exclude = vec!["PODS".to_string(), "build".to_string()];
    assert!(!keeps_file("/p/Pods/de.lproj/Main.strings", "Main.strings", true, &exclude));
    assert!(!keeps_file("/p/Build/de.lproj/Main.strings", "Main.strings", true, &exclude));
    assert!(keeps_file("/p/App/de.lproj/Main.strings", "Main.strings", true, &exclude));
}
