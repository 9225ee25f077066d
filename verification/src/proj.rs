//! A project: the root directory below which the locale directories stand.

use vstd::prelude::*;
use crate::error::Error;
use crate::locales::{
    dir_translation, listed_locales, local_translation, locale_dir, locale_dir_path, locales_of,
    read_all, readings, texts, translate_from, translate_in, views, DirEntry, FileData,
};
use crate::strings::Localization;

verus! {

/// A project, known by the path of its root directory. It holds nothing of
/// what the directory contains: each call is handed the listing or the files
/// that it works on.
#[derive(Debug)]
pub struct Project<'a> {
    pub root: &'a str,
}

impl<'a> Project<'a> {
    /// The locales of the project, from a listing of its root directory: in
    /// the order of the listing, the names of the directories that end with
    /// `.lproj`, without that suffix.
    pub fn available_locales(&self, entries: &Vec<DirEntry>) -> (locales: Vec<String>)
        ensures
            texts(locales@) == listed_locales(entries@),
    {
        locales_of(entries)
    }

    /// The localizations of `locale`, from the files of its directory: each
    /// `.strings` file is read as it stands. A file that cannot be read is
    /// left out, and the others are read all the same.
    pub fn localizations_for_locale(&self, locale: &str, files: &Vec<FileData>) -> (found: Vec<
        Localization,
    >)
        ensures
            views(found@) == readings(locale_dir_path(self.root@, locale@), files@, false),
            forall|i: int| 0 <= i < found@.len() ==> (#[trigger] found@[i]).wf(),
    {
        let dir = locale_dir(self.root, locale);
        read_all(dir.as_str(), files, false)
    }

    /// The translation of the phrase `word` into `target_locale` that the
    /// local files give: `base` are the files of the directory of the base
    /// locale `en`, `target` those of the target locale's.
    pub fn translate(
        &self,
        word: &str,
        target_locale: &str,
        base: &Vec<FileData>,
        target: &Vec<FileData>,
    ) -> (hit: Result<Option<String>, Error>)
        ensures
            hit is Ok,
            match hit->Ok_0 {
                Some(t) => local_translation(self.root@, word@, target_locale@, base@, target@)
                    == Some(t@),
                None => local_translation(self.root@, word@, target_locale@, base@, target@)
                    is None,
            },
    {
        Ok(translate_from(self.root, word, target_locale, base, target))
    }

    /// What the files of the directory `dir` store under `key`: the target
    /// of the entry in the first file that holds the key.
    pub fn translate_in_dir(&self, key: &str, dir: &str, files: &Vec<FileData>, inversed: bool) -> (hit:
        Result<Option<String>, Error>)
        ensures
            hit is Ok,
            match hit->Ok_0 {
                Some(t) => dir_translation(dir@, files@, key@, inversed) == Some(t@),
                None => dir_translation(dir@, files@, key@, inversed) is None,
            },
    {
        Ok(translate_in(dir, files, key, inversed))
    }
}

} // verus!
