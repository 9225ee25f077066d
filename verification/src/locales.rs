//! The locale directory model: a project holds one directory per language,
//! named `<code>.lproj`, and each holds `.strings` files. The directory
//! listings and the bytes of the files are handed in as plain values.

use vstd::prelude::*;
use vstd::string::StringExecFns;
use crate::encoding::decoded;
use crate::strings::{locale_suffix, path_locale, segment_locale, Localization, LocalizationView};
use crate::table::{Translation, TranslationView};
use crate::text::{
    contains, ends, ends_with, includes, lowercase, lowercased, to_chars, to_text,
};

verus! {

/// One entry of a directory listing.
#[derive(Debug)]
pub struct DirEntry {
    pub name: String,
    pub is_dir: bool,
}

/// One file of a directory, with the bytes read from it.
#[derive(Debug)]
pub struct FileData {
    pub name: String,
    pub content: Vec<u8>,
}

/// The path of the directory of `locale` below `root`.
pub open spec fn locale_dir_path(root: Seq<char>, locale: Seq<char>) -> Seq<char> {
    root + "/"@ + locale + locale_suffix()
}

/// The path of the file `name` in the directory `dir`.
pub open spec fn file_path(dir: Seq<char>, name: Seq<char>) -> Seq<char> {
    dir + "/"@ + name
}

/// A file name whose extension is `strings`.
pub open spec fn is_strings_file(name: Seq<char>) -> bool {
    ends_with(name, ".strings"@) && name.len() > ".strings"@.len()
}

/// The locales that a listing of the project root shows: for each
/// directory whose name ends with `.lproj`, the name without that suffix, in
/// the order of the listing.
pub open spec fn listed_locales(entries: Seq<DirEntry>) -> Seq<Seq<char>>
    decreases entries.len(),
{
    if entries.len() == 0 {
        Seq::empty()
    } else {
        let earlier = listed_locales(entries.drop_last());
        let entry = entries.last();
        if entry.is_dir && segment_locale(entry.name@) is Some {
            earlier.push(segment_locale(entry.name@)->Some_0)
        } else {
            earlier
        }
    }
}

/// The localization that the file `name` of the directory `dir` holds, as
/// `Localization::from_file` reads it; `None` where the name has another
/// extension or the file cannot be read.
pub open spec fn file_reading(dir: Seq<char>, file: FileData, inversed: bool) -> Option<
    LocalizationView,
> {
    let path = file_path(dir, file.name@);
    if is_strings_file(file.name@) && decoded(file.content@) is Some && path_locale(path) is Some {
        Some(
            Localization::reading(
                path_locale(path)->Some_0,
                decoded(file.content@)->Some_0,
                inversed,
            ),
        )
    } else {
        None
    }
}

/// The localizations that the files of a directory hold, in the order of
/// the files; a file that cannot be read is left out.
pub open spec fn readings(dir: Seq<char>, files: Seq<FileData>, inversed: bool) -> Seq<
    LocalizationView,
>
    decreases files.len(),
{
    if files.len() == 0 {
        Seq::empty()
    } else {
        let earlier = readings(dir, files.drop_last(), inversed);
        match file_reading(dir, files.last(), inversed) {
            Some(reading) => earlier.push(reading),
            None => earlier,
        }
    }
}

/// The first of `found` that holds `key`, if any does.
pub open spec fn first_holding(found: Seq<LocalizationView>, key: Seq<char>) -> Option<
    TranslationView,
>
    decreases found.len(),
{
    if found.len() == 0 {
        None
    } else if found[0].translations.contains_key(key) {
        Some(found[0].translations[key])
    } else {
        first_holding(found.skip(1), key)
    }
}

/// The views of some localizations.
pub open spec fn views(found: Seq<Localization>) -> Seq<LocalizationView> {
    Seq::new(found.len(), |i: int| found[i]@)
}

/// The texts of some strings.
pub open spec fn texts(names: Seq<String>) -> Seq<Seq<char>> {
    Seq::new(names.len(), |i: int| names[i]@)
}

/// The path of the directory of `locale` below `root`.
pub fn locale_dir(root: &str, locale: &str) -> (path: String)
    ensures
        path@ == locale_dir_path(root@, locale@),
{
    let mut path = root.to_owned();
    path.append("/");
    path.append(locale);
    path.append(".lproj");
    path
}

/// Decides whether a file name has the extension `strings`.
pub fn has_strings_extension(name: &str) -> (held: bool)
    ensures
        held == is_strings_file(name@),
{
    let chars = to_chars(name);
    let suffix = to_chars(".strings");
    let n = chars.len();
    assert(chars@.subrange(0, n as int) =~= chars@);
    ends(chars.as_slice(), 0, n, suffix.as_slice()) && n > suffix.len()
}

/// The locales that a listing of the project root shows.
pub fn locales_of(entries: &Vec<DirEntry>) -> (locales: Vec<String>)
    ensures
        texts(locales@) == listed_locales(entries@),
{
    let mut locales: Vec<String> = Vec::new();
    let suffix = to_chars(".lproj");
    let mut i: usize = 0;
    assert(entries@.take(0) =~= Seq::<DirEntry>::empty());
    assert(texts(locales@) =~= Seq::<Seq<char>>::empty());
    while i < entries.len()
        invariant
            i <= entries@.len(),
            suffix@ == locale_suffix(),
            texts(locales@) == listed_locales(entries@.take(i as int)),
        decreases entries@.len() - i,
    {
        let entry = &entries[i];
        let ghost before = texts(locales@);
        proof {
            assert(entries@.take(i + 1).drop_last() =~= entries@.take(i as int));
            assert(entries@.take(i + 1).last() == entries@[i as int]);
        }
        if entry.is_dir {
            let chars = to_chars(entry.name.as_str());
            let n = chars.len();
            assert(chars@.subrange(0, n as int) =~= chars@);
            if ends(chars.as_slice(), 0, n, suffix.as_slice()) {
                let locale = to_text(chars.as_slice(), 0, n - suffix.len());
                assert(locale@ =~= chars@.take(n - suffix@.len()));
                locales.push(locale);
                assert(texts(locales@) =~= before.push(locale@));
            }
        }
        i += 1;
    }
    assert(entries@.take(entries@.len() as int) =~= entries@);
    locales
}

/// The localizations that the `.strings` files of the directory `dir` hold,
/// in the order of the files. A file that cannot be read is left out; the
/// others are read all the same.
pub fn read_all(dir: &str, files: &Vec<FileData>, inversed: bool) -> (found: Vec<Localization>)
    ensures
        views(found@) == readings(dir@, files@, inversed),
        forall|i: int| 0 <= i < found@.len() ==> (#[trigger] found@[i]).wf(),
{
    let mut found: Vec<Localization> = Vec::new();
    let mut i: usize = 0;
    assert(files@.take(0) =~= Seq::<FileData>::empty());
    assert(views(found@) =~= Seq::<LocalizationView>::empty());
    while i < files.len()
        invariant
            i <= files@.len(),
            views(found@) == readings(dir@, files@.take(i as int), inversed),
            forall|k: int| 0 <= k < found@.len() ==> (#[trigger] found@[k]).wf(),
        decreases files@.len() - i,
    {
        let file = &files[i];
        let ghost before = views(found@);
        proof {
            assert(files@.take(i + 1).drop_last() =~= files@.take(i as int));
            assert(files@.take(i + 1).last() == files@[i as int]);
        }
        if has_strings_extension(file.name.as_str()) {
            let mut path = dir.to_owned();
            path.append("/");
            path.append(file.name.as_str());
            match Localization::from_file(path.as_str(), file.content.as_slice(), inversed) {
                Ok(loc) => {
                    found.push(loc);
                    assert(views(found@) =~= before.push(loc@));
                },
                Err(_) => {},
            }
        }
        i += 1;
    }
    assert(files@.take(files@.len() as int) =~= files@);
    found
}

/// The translation that the first of `found` with the key `key` stores under
/// it.
pub fn find_in<'a>(found: &'a Vec<Localization>, key: &str) -> (hit: Option<
    &'a Translation,
>)
    requires
        forall|i: int| 0 <= i < found@.len() ==> (#[trigger] found@[i]).wf(),
    ensures
        match hit {
            Some(t) => first_holding(views(found@), key@) == Some(t@),
            None => first_holding(views(found@), key@) is None,
        },
{
    let mut i: usize = 0;
    assert(views(found@).skip(0) =~= views(found@));
    while i < found.len()
        invariant
            i <= found@.len(),
            forall|k: int| 0 <= k < found@.len() ==> (#[trigger] found@[k]).wf(),
            first_holding(views(found@), key@) == first_holding(
                views(found@).skip(i as int),
                key@,
            ),
        decreases found@.len() - i,
    {
        proof {
            assert(views(found@).skip(i as int)[0] == found@[i as int]@);
            assert(views(found@).skip(i as int).skip(1) =~= views(found@).skip(i + 1));
        }
        match found[i].translations.get(key) {
            Some(t) => {
                return Some(t);
            },
            None => {},
        }
        i += 1;
    }
    None
}

/// The locale in which the phrases to translate are written.
pub open spec fn base_locale() -> Seq<char> {
    "en"@
}

/// What the files of the directory `dir` give for `key`: the target of the
/// entry stored under `key` in the first file that holds the key.
pub open spec fn dir_translation(dir: Seq<char>, files: Seq<FileData>, key: Seq<char>, inversed: bool)
    -> Option<Seq<char>> {
    match first_holding(readings(dir, files, inversed), key) {
        Some(entry) => Some(entry.target),
        None => None,
    }
}

/// What the local files give for the phrase `word` in `target_locale`.
///
/// The phrase is looked up under its lowercase, first among the files of the
/// base locale, read with source and target exchanged so that the phrase
/// itself is the key. If no base file holds it there is no translation.
/// Otherwise the translation is what the files of the target locale, read
/// as they stand, store under the same key.
pub open spec fn local_translation(
    root: Seq<char>,
    word: Seq<char>,
    target_locale: Seq<char>,
    base: Seq<FileData>,
    target: Seq<FileData>,
) -> Option<Seq<char>> {
    let id = lowercased(word);
    if dir_translation(locale_dir_path(root, base_locale()), base, id, true) is None {
        None
    } else {
        dir_translation(locale_dir_path(root, target_locale), target, id, false)
    }
}

/// Looks `key` up in the files of the directory `dir`.
pub fn translate_in(dir: &str, files: &Vec<FileData>, key: &str, inversed: bool) -> (hit: Option<
    String,
>)
    ensures
        match hit {
            Some(t) => dir_translation(dir@, files@, key@, inversed) == Some(t@),
            None => dir_translation(dir@, files@, key@, inversed) is None,
        },
{
    let found = read_all(dir, files, inversed);
    match find_in(&found, key) {
        Some(entry) => Some(entry.target.clone()),
        None => None,
    }
}

/// Looks the phrase `word` up for `target_locale` in the local files of the
/// project at `root`.
pub fn translate_from(
    root: &str,
    word: &str,
    target_locale: &str,
    base: &Vec<FileData>,
    target: &Vec<FileData>,
) -> (hit: Option<String>)
    ensures
        match hit {
            Some(t) => local_translation(root@, word@, target_locale@, base@, target@) == Some(t@),
            None => local_translation(root@, word@, target_locale@, base@, target@) is None,
        },
{
    let id = lowercase(word);
    let base_dir = locale_dir(root, "en");
    match translate_in(base_dir.as_str(), base, id.as_str(), true) {
        Some(_) => {
            let target_dir = locale_dir(root, target_locale);
            translate_in(target_dir.as_str(), target, id.as_str(), false)
        },
        None => None,
    }
}

/// A file that belongs to the project's translations: a regular file whose
/// name holds `.strings`, whose path holds no `.git`, and whose path holds
/// none of the patterns in `exclude`, whatever the case of either.
pub open spec fn is_project_file(
    path: Seq<char>,
    name: Seq<char>,
    is_file: bool,
    exclude: Seq<Seq<char>>,
) -> bool {
    &&& is_file
    &&& !contains(path, ".git"@)
    &&& contains(name, ".strings"@)
    &&& forall|i: int|
        0 <= i < exclude.len() ==> !contains(lowercased(path), lowercased(#[trigger] exclude[i]))
}

/// Decides whether the file at `path`, with the name `name`, belongs to the
/// project's translations.
pub fn keeps_file(path: &str, name: &str, is_file: bool, exclude: &Vec<String>) -> (kept: bool)
    ensures
        kept == is_project_file(path@, name@, is_file, texts(exclude@)),
{
    if !is_file {
        return false;
    }
    let path_chars = to_chars(path);
    let git = to_chars(".git");
    if includes(path_chars.as_slice(), git.as_slice()) {
        return false;
    }
    let name_chars = to_chars(name);
    let strings = to_chars(".strings");
    if !includes(name_chars.as_slice(), strings.as_slice()) {
        return false;
    }
    let lowered = lowercase(path);
    let lowered_chars = to_chars(lowered.as_str());
    let mut i: usize = 0;
    while i < exclude.len()
        invariant
            i <= exclude@.len(),
            lowered_chars@ == lowercased(path@),
            forall|k: int|
                0 <= k < i ==> !contains(lowercased(path@), lowercased(#[trigger] texts(exclude@)[k])),
        decreases exclude@.len() - i,
    {
        let pattern = lowercase(exclude[i].as_str());
        let pattern_chars = to_chars(pattern.as_str());
        if includes(lowered_chars.as_slice(), pattern_chars.as_slice()) {
            assert(contains(lowercased(path@), lowercased(texts(exclude@)[i as int])));
            return false;
        }
        i += 1;
    }
    true
}

} // verus!
