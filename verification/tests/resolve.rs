use lproj::error::Error;
use lproj::locales::FileData;
use lproj::resolve::{search_query, Action, Event, Resolver};
use lproj::strings::Localization;
use lproj::table::Translation;

fn file(name: &str, content: &str) -> FileData {
    FileData { name: name.to_string(), content: content.as_bytes().to_vec() }
}

fn base_files() -> Vec<FileData> {
    vec![file("Localizable.strings", "/* shown at start */\n\"Hello\" = \"Hello\";\n")]
}

fn target_files() -> Vec<FileData> {
    vec![file("Localizable.strings", "\"Other\" = \"Anderes\";\n")]
}

fn locales(names: &[&str]) -> Vec<String> {
    names.iter().map(|n| n.to_string()).collect()
}

fn empty_target() -> Localization {
    Localization::from_params("de", "", false).unwrap()
}

/// What a mocked world answers to an action, and how often each
/// collaborator was called.
struct World {
    corpus: Vec<(String, Option<Vec<u8>>)>,
    search_works: bool,
    machine: Option<String>,
    copy_works: bool,
    copies: Vec<(String, String)>,
    searches: Vec<(String, String)>,
    fetches: Vec<String>,
    translations: Vec<(String, String, String)>,
    loads: usize,
}

fn world() -> World {
    World {
        corpus: vec![],
        search_works: true,
        machine: None,
        copy_works: true,
        copies: vec![],
        searches: vec![],
        fetches: vec![],
        translations: vec![],
        loads: 0,
    }
}

fn run(
    world: &mut World,
    phrase: &str,
    known: &[&str],
    base: Vec<FileData>,
    target: Vec<FileData>,
    into: &mut Localization,
) -> (Result<String, Error>, Vec<String>) {
    let (mut resolver, mut action) = Resolver::new("/proj", phrase, "en", "de", &locales(known));
    let mut order = vec![];
    let mut base = Some(base);
    let mut target = Some(target);
    for _ in 0..100 {
        let event = match action {
            Action::CopyTree { source, dest } => {
                order.push("copy".to_string());
                world.copies.push((source, dest));
                if world.copy_works { Event::Copied } else { Event::CopyFailed }
            }
            Action::Load { base_dir, target_dir } => {
                order.push("load".to_string());
                assert_eq!(base_dir, "/proj/en.lproj");
                assert_eq!(target_dir, "/proj/de.lproj");
                world.loads += 1;
                Event::Loaded { base: base.take().unwrap(), target: target.take().unwrap() }
            }
            Action::Search { phrase, locale } => {
                order.push("search".to_string());
                world.searches.push((phrase, locale));
                if world.search_works {
                    Event::Candidates(world.corpus.iter().map(|c| c.0.clone()).collect())
                } else {
                    Event::SearchFailed
                }
            }
            Action::Fetch { reference } => {
                order.push("fetch".to_string());
                world.fetches.push(reference.clone());
                match world.corpus.iter().find(|c| c.0 == reference).unwrap().1.clone() {
                    Some(bytes) => Event::Fetched(bytes),
                    None => Event::FetchFailed,
                }
            }
            Action::Translate { phrase, source_lang, target_lang } => {
                order.push("translate".to_string());
                world.translations.push((phrase, source_lang, target_lang));
                match world.machine.clone() {
                    Some(text) => Event::Translated(text),
                    None => Event::TranslateFailed,
                }
            }
            Action::Finish(outcome) => {
                assert!(resolver.is_done());
                return (outcome, order);
            }
        };
        action = resolver.step(event, into);
    }
    panic!("the pipeline did not end");
}

#[test]
fn search_query_has_the_exact_form() {
    assert_eq!(search_query("Hello", "de"), "\"Hello\" path:de.lproj extension:strings");
    assert_eq!(search_query("", ""), "\"\" path:.lproj extension:strings");
}

#[test]
fn remote_corpus_resolves_without_machine_translation() {
    let mut w = world();
    w.machine = Some("unused".to_string());
    w.corpus = vec![
        ("https://h/a/de.lproj/A.strings".to_string(), Some(b"\"Other\" = \"x\";\n".to_vec())),
        ("https://h/b/de.lproj/B.strings".to_string(), None),
        ("https://h/c/de.lproj/C.strings".to_string(), Some(vec![0xFF])),
        (
            "https://h/d/de.lproj/D.strings".to_string(),
            Some(b"/* remote */\n\"HELLO\" = \"Hallo\";\n".to_vec()),
        ),
        ("https://h/e/de.lproj/E.strings".to_string(), Some(b"\"Hello\" = \"Servus\";\n".to_vec())),
    ];
    let mut into = empty_target();
    let (outcome, order) =
        run(&mut w, "Hello", &["en", "de"], base_files(), target_files(), &mut into);
    assert_eq!(outcome, Ok("Hallo".to_string()));
    assert_eq!(w.translations.len(), 0);
    assert_eq!(w.copies.len(), 0);
    assert_eq!(w.searches, vec![("Hello".to_string(), "de".to_string())]);
    assert_eq!(
        w.fetches,
        vec![
            "https://h/a/de.lproj/A.strings",
            "https://h/b/de.lproj/B.strings",
            "https://h/c/de.lproj/C.strings",
            "https://h/d/de.lproj/D.strings"
        ]
    );
    assert_eq!(order, vec!["load", "search", "fetch", "fetch", "fetch", "fetch"]);
    let merged = into.translations.get("hello").unwrap();
    assert_eq!(merged.source, "HELLO");
    assert_eq!(merged.target, "Hallo");
    assert_eq!(merged.comment, "/* remote */");
    assert_eq!(into.translations.len(), 1);
}

#[test]
fn machine_translation_is_asked_once_when_all_else_misses() {
    let mut w = world();
    w.machine = Some("Hallo".to_string());
    w.corpus = vec![
        ("r1".to_string(), Some(b"\"Other\" = \"x\";\n".to_vec())),
        ("r2".to_string(), None),
    ];
    let mut into = empty_target();
    into.translations.insert(
        "hello".to_string(),
        Translation {
            comment: "old".to_string(),
            source: "hello".to_string(),
            target: "alt".to_string(),
        },
    );
    let (outcome, order) =
        run(&mut w, "Hello", &["en", "de"], base_files(), target_files(), &mut into);
    assert_eq!(outcome, Ok("Hallo".to_string()));
    assert_eq!(w.translations, vec![("Hello".to_string(), "en".to_string(), "de".to_string())]);
    assert_eq!(w.fetches, vec!["r1", "r2"]);
    assert_eq!(order, vec!["load", "search", "fetch", "fetch", "translate"]);
    assert_eq!(into.translations.len(), 1);
    let merged = into.translations.get("hello").unwrap();
    assert_eq!(merged.comment, "/* shown at start */");
    assert_eq!(merged.source, "Hello");
    assert_eq!(merged.target, "Hallo");
}

#[test]
fn failed_search_goes_on_to_machine_translation() {
    let mut w = world();
    w.search_works = false;
    w.machine = Some("Hallo".to_string());
    let mut into = empty_target();
    let (outcome, order) =
        run(&mut w, "Hello", &["en", "de"], base_files(), target_files(), &mut into);
    assert_eq!(outcome, Ok("Hallo".to_string()));
    assert_eq!(order, vec!["load", "search", "translate"]);
    assert_eq!(w.translations.len(), 1);
}

#[test]
fn failed_machine_translation_leaves_the_phrase_unresolved() {
    let mut w = world();
    let mut into = empty_target();
    let (outcome, order) =
        run(&mut w, "Hello", &["en", "de"], base_files(), target_files(), &mut into);
    assert_eq!(outcome, Err(Error::Unresolved));
    assert_eq!(order, vec!["load", "search", "translate"]);
    assert_eq!(into.translations.len(), 0);
}

#[test]
fn phrase_unknown_to_the_base_locale_is_not_found() {
    let mut w = world();
    w.machine = Some("unused".to_string());
    let mut into = empty_target();
    let (outcome, order) =
        run(&mut w, "Nowhere", &["en", "de"], base_files(), target_files(), &mut into);
    assert_eq!(outcome, Err(Error::NotFound));
    assert_eq!(order, vec!["load"]);
    assert_eq!(w.searches.len() + w.fetches.len() + w.translations.len() + w.copies.len(), 0);
}

#[test]
fn missing_target_directory_is_copied_once_before_any_lookup() {
    let mut w = world();
    w.machine = Some("Hallo".to_string());
    let mut into = empty_target();
    let (outcome, order) = run(&mut w, "Hello", &["en", "fr"], base_files(), vec![], &mut into);
    assert_eq!(outcome, Ok("Hallo".to_string()));
    assert_eq!(w.copies, vec![("/proj/en.lproj".to_string(), "/proj/de.lproj".to_string())]);
    assert_eq!(order, vec!["copy", "load", "search", "translate"]);
    assert_eq!(w.loads, 1);
}

#[test]
fn failed_copy_ends_the_pipeline() {
    let mut w = world();
    w.copy_works = false;
    let mut into = empty_target();
    let (outcome, order) = run(&mut w, "Hello", &["en"], base_files(), vec![], &mut into);
    assert_eq!(outcome, Err(Error::Collaborator));
    assert_eq!(order, vec!["copy"]);
    assert_eq!(w.loads, 0);
}

#[test]
fn locally_present_phrase_resolves_twice_alike_without_collaborators() {
    let target = vec![
        file("A.strings", "\"Other\" = \"Anderes\";\n"),
        file("B.strings", "\"hello\" = \"Hallo\";\n"),
    ];
    for _ in 0..2 {
        let mut w = world();
        w.machine = Some("unused".to_string());
        w.corpus = vec![("r1".to_string(), Some(b"\"Hello\" = \"Servus\";\n".to_vec()))];
        let mut into = empty_target();
        let (outcome, order) = run(
            &mut w,
            "Hello",
            &["de", "en"],
            base_files(),
            vec![target[0].clone_data(), target[1].clone_data()],
            &mut into,
        );
        assert_eq!(outcome, Ok("Hallo".to_string()));
        assert_eq!(order, vec!["load"]);
        assert_eq!(w.searches.len() + w.fetches.len() + w.translations.len() + w.copies.len(), 0);
        assert_eq!(into.translations.len(), 0);
    }
}

trait CloneData {
    fn clone_data(&self) -> FileData;
}

impl CloneData for FileData {
    fn clone_data(&self) -> FileData {
        FileData { name: self.name.clone(), content: self.content.clone() }
    }
}

#[test]
fn failed_load_ends_the_pipeline() {
    let (mut resolver, action) = Resolver::new("/proj", "Hello", "en", "de", &locales(&["de"]));
    assert!(matches!(action, Action::Load { .. }));
    assert!(!resolver.is_done());
    assert_eq!(resolver.id(), "hello");
    let mut into = empty_target();
    let action = resolver.step(Event::LoadFailed, &mut into);
    assert!(matches!(action, Action::Finish(Err(Error::Collaborator))));
    assert!(resolver.is_done());
}

#[test]
fn finished_pipeline_repeats_its_result() {
    let (mut resolver, _) = Resolver::new("/proj", "Hello", "en", "de", &locales(&["de"]));
    let mut into = empty_target();
    let target = vec![file("B.strings", "\"hello\" = \"Hallo\";\n")];
    let action = resolver.step(Event::Loaded { base: base_files(), target }, &mut into);
    assert!(matches!(action, Action::Finish(Ok(ref t)) if t == "Hallo"));
    let action = resolver.step(Event::Translated("x".to_string()), &mut into);
    assert!(matches!(action, Action::Finish(Ok(ref t)) if t == "Hallo"));
    assert_eq!(into.translations.len(), 0);
}

#[test]
fn unexpected_event_counts_as_failure_of_the_awaited_action() {
    let (mut resolver, _) = Resolver::new("/proj", "Hello", "en", "de", &locales(&["de"]));
    let mut into = empty_target();
    let action =
        resolver.step(Event::Loaded { base: base_files(), target: target_files() }, &mut into);
    assert!(matches!(action, Action::Search { .. }));
    let action = resolver.step(Event::Copied, &mut into);
    assert!(matches!(action, Action::Translate { .. }));
    let action = resolver.step(Event::Fetched(vec![]), &mut into);
    assert!(matches!(action, Action::Finish(Err(Error::Unresolved))));
}
