//! A local directory as a source of translations.

use vstd::prelude::*;
use crate::error::Error;
use crate::locales::{
    dir_translation, listed_locales, local_translation, locales_of, texts, translate_from,
    translate_in, DirEntry, FileData,
};

verus! {

/// A directory that holds locale directories, known by its path. Like a
/// project it keeps nothing of what the directory contains.
#[derive(Debug)]
pub struct LocalDirSource {
    pub root: String,
}

impl LocalDirSource {
    /// The locales of the source, from a listing of its root directory: in
    /// the order of the listing, the names of the directories that end with
    /// `.lproj`, without that suffix.
    pub fn available_locales(&self, entries: &Vec<DirEntry>) -> (locales: Result<
        Vec<String>,
        Error,
    >)
        ensures
            locales is Ok,
            texts(locales->Ok_0@) == listed_locales(entries@),
    {
        Ok(locales_of(entries))
    }

    /// The translation of the phrase `word` into `target_locale` that the
    /// files of the source give: `base` are the files of the directory of the
    /// base locale `en`, `target` those of the target locale's.
    pub fn translate(
        &self,
        word: &str,
        target_locale: &str,
        base: &Vec<FileData>,
        target: &Vec<FileData>,
    ) -> (hit: Result<Option<String>, Error>)
        ensures
            hit is Ok,
            match hit->Ok_0 {
                Some(t) => local_translation(self.root@, word@, target_locale@, base@, target@)
                    == Some(t@),
                None => local_translation(self.root@, word@, target_locale@, base@, target@)
                    is None,
            },
    {
        Ok(translate_from(self.root.as_str(), word, target_locale, base, target))
    }

    /// What the files of the directory `dir` store under `key`: the target
    /// of the entry in the first file that holds the key.
    pub fn translate_in_dir(&self, key: &str, dir: &str, files: &Vec<FileData>, inversed: bool) -> (hit:
        Result<Option<String>, Error>)
        ensures
            hit is Ok,
            match hit->Ok_0 {
                Some(t) => dir_translation(dir@, files@, key@, inversed) == Some(t@),
                None => dir_translation(dir@, files@, key@, inversed) is None,
            },
    {
        Ok(translate_in(dir, files, key, inversed))
    }
}

} // verus!
