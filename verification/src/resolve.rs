//! The resolution pipeline: one phrase is resolved for a target locale from
//! the local files first, then from a remote corpus of `.strings` files, then
//! by machine translation.
//!
//! The pipeline performs no work outside the library itself. A `Resolver`
//! names the next thing to do as an `Action`; whoever runs it performs the
//! action and hands back what came of it as an `Event`.

use vstd::prelude::*;
use vstd::string::StringExecFns;
use crate::encoding::decoded;
use crate::error::Error;
use crate::locales::{
    find_in, first_holding, locale_dir, locale_dir_path, read_all, readings, texts, FileData,
};
use crate::strings::{parsed_entries, table_of, Localization};
use crate::table::{Translation, TranslationView};
use crate::text::{lowercase, lowercased};

verus! {

/// What the pipeline waits for.
#[derive(Debug, Clone, Copy, PartialEq, Eq, Structural)]
pub enum Stage {
    /// For the copy that makes the target locale's directory.
    Copying,
    /// For the files of the base and the target locale.
    Loading,
    /// For the candidates that the code search finds.
    Searching,
    /// For the bytes of the candidate that is next in turn.
    Fetching,
    /// For the machine translation.
    Translating,
    /// For nothing: the phrase is resolved, or has been given up.
    Done,
}

/// What is to be done next.
#[derive(Debug)]
pub enum Action {
    /// Copy the directory `source` with all that it holds to `dest`.
    CopyTree { source: String, dest: String },
    /// Read the files of the two directories.
    Load { base_dir: String, target_dir: String },
    /// Ask the code search for `.strings` files of `locale` that hold `phrase`.
    Search { phrase: String, locale: String },
    /// Fetch the bytes of the file that `reference` names.
    Fetch { reference: String },
    /// Ask for the machine translation of `phrase`.
    Translate { phrase: String, source_lang: String, target_lang: String },
    /// Nothing more: this is the result.
    Finish(Result<String, Error>),
}

/// What an `Action` stands for in contracts.
pub enum ActionView {
    CopyTree { source: Seq<char>, dest: Seq<char> },
    Load { base_dir: Seq<char>, target_dir: Seq<char> },
    Search { phrase: Seq<char>, locale: Seq<char> },
    Fetch { reference: Seq<char> },
    Translate { phrase: Seq<char>, source_lang: Seq<char>, target_lang: Seq<char> },
    Finish(Result<Seq<char>, Error>),
}

/// A result with its text as a sequence of characters.
pub open spec fn outcome_view(outcome: Result<String, Error>) -> Result<Seq<char>, Error> {
    match outcome {
        Ok(text) => Ok(text@),
        Err(e) => Err(e),
    }
}

impl View for Action {
    type V = ActionView;

    open spec fn view(&self) -> ActionView {
        match *self {
            Action::CopyTree { source, dest } => ActionView::CopyTree {
                source: source@,
                dest: dest@,
            },
            Action::Load { base_dir, target_dir } => ActionView::Load {
                base_dir: base_dir@,
                target_dir: target_dir@,
            },
            Action::Search { phrase, locale } => ActionView::Search {
                phrase: phrase@,
                locale: locale@,
            },
            Action::Fetch { reference } => ActionView::Fetch { reference: reference@ },
            Action::Translate { phrase, source_lang, target_lang } => ActionView::Translate {
                phrase: phrase@,
                source_lang: source_lang@,
                target_lang: target_lang@,
            },
            Action::Finish(outcome) => ActionView::Finish(outcome_view(outcome)),
        }
    }
}

/// What came of the action that was asked for.
#[derive(Debug)]
pub enum Event {
    /// The directory was copied.
    Copied,
    /// The directory could not be copied.
    CopyFailed,
    /// The files of the base and of the target locale's directory.
    Loaded { base: Vec<FileData>, target: Vec<FileData> },
    /// The files could not be read.
    LoadFailed,
    /// The references of the candidates that the search found, best first.
    Candidates(Vec<String>),
    /// The search failed.
    SearchFailed,
    /// The bytes of the candidate.
    Fetched(Vec<u8>),
    /// The candidate could not be fetched.
    FetchFailed,
    /// The machine translation of the phrase.
    Translated(String),
    /// The machine translation failed.
    TranslateFailed,
}

/// The pipeline for one phrase.
#[derive(Debug)]
pub struct Resolver {
    root: String,
    phrase: String,
    base_locale: String,
    target_locale: String,
    id: String,
    stage: Stage,
    base_entry: Translation,
    candidates: Vec<String>,
    next: usize,
    outcome: Result<String, Error>,
}

/// What a `Resolver` stands for in contracts.
pub struct ResolverView {
    pub root: Seq<char>,
    pub phrase: Seq<char>,
    pub base_locale: Seq<char>,
    pub target_locale: Seq<char>,
    /// The key under which the phrase is looked up everywhere.
    pub id: Seq<char>,
    pub stage: Stage,
    /// The entry of the base locale that holds the phrase, once it is found.
    pub base_entry: TranslationView,
    /// The candidates that the search found.
    pub candidates: Seq<Seq<char>>,
    /// How many of the candidates have been tried.
    pub next: nat,
    /// The result, once the pipeline is done.
    pub outcome: Result<Seq<char>, Error>,
}

impl View for Resolver {
    type V = ResolverView;

    closed spec fn view(&self) -> ResolverView {
        ResolverView {
            root: self.root@,
            phrase: self.phrase@,
            base_locale: self.base_locale@,
            target_locale: self.target_locale@,
            id: self.id@,
            stage: self.stage,
            base_entry: self.base_entry@,
            candidates: texts(self.candidates@),
            next: self.next as nat,
            outcome: outcome_view(self.outcome),
        }
    }
}

/// A state, the action that it asks for, and the entry that was found on
/// the way to it, if one was, to be stored in the target localization.
pub struct Step {
    pub state: ResolverView,
    pub action: ActionView,
    pub stored: Option<TranslationView>,
}

/// What holds of every state of a pipeline: the candidate that is waited for
/// is one of those that the search found.
pub open spec fn valid(s: ResolverView) -> bool {
    &&& s.next <= s.candidates.len()
    &&& s.stage == Stage::Fetching ==> s.next < s.candidates.len()
}

/// The action that loads the local files.
pub open spec fn load_action(s: ResolverView) -> ActionView {
    ActionView::Load {
        base_dir: locale_dir_path(s.root, s.base_locale),
        target_dir: locale_dir_path(s.root, s.target_locale),
    }
}

/// The action that asks for the machine translation.
pub open spec fn translate_action(s: ResolverView) -> ActionView {
    ActionView::Translate {
        phrase: s.phrase,
        source_lang: s.base_locale,
        target_lang: s.target_locale,
    }
}

/// The pipeline as it begins for a phrase. `locales` are the locales that the
/// project has. Where the target locale is not among them, its directory is
/// first made as a copy of the base locale's; otherwise the local files are
/// loaded at once.
pub open spec fn start(
    root: Seq<char>,
    phrase: Seq<char>,
    base_locale: Seq<char>,
    target_locale: Seq<char>,
    locales: Seq<Seq<char>>,
) -> Step {
    let s = ResolverView {
        root,
        phrase,
        base_locale,
        target_locale,
        id: lowercased(phrase),
        stage: if locales.contains(target_locale) {
            Stage::Loading
        } else {
            Stage::Copying
        },
        base_entry: TranslationView {
            comment: Seq::empty(),
            source: Seq::empty(),
            target: Seq::empty(),
        },
        candidates: Seq::empty(),
        next: 0,
        outcome: Err(Error::Unresolved),
    };
    Step {
        state: s,
        action: if locales.contains(target_locale) {
            load_action(s)
        } else {
            ActionView::CopyTree {
                source: locale_dir_path(root, base_locale),
                dest: locale_dir_path(root, target_locale),
            }
        },
        stored: None,
    }
}

/// The pipeline at its end, with `outcome` as the result.
pub open spec fn finish(
    s: ResolverView,
    outcome: Result<Seq<char>, Error>,
    stored: Option<TranslationView>,
) -> Step {
    Step {
        state: ResolverView { stage: Stage::Done, outcome, ..s },
        action: ActionView::Finish(outcome),
        stored,
    }
}

/// The pipeline turns to the candidate that is next in turn, or, when none
/// is left, to the machine translation.
pub open spec fn advance(s: ResolverView) -> Step {
    if s.next < s.candidates.len() {
        Step {
            state: ResolverView { stage: Stage::Fetching, ..s },
            action: ActionView::Fetch { reference: s.candidates[s.next as int] },
            stored: None,
        }
    } else {
        Step {
            state: ResolverView { stage: Stage::Translating, ..s },
            action: translate_action(s),
            stored: None,
        }
    }
}

/// The entry that a fetched file stores under `id` when it is read as it
/// stands; `None` where the bytes are no text or the file lacks the key.
pub open spec fn remote_hit(raw: Seq<u8>, id: Seq<char>) -> Option<TranslationView> {
    match decoded(raw) {
        Some(content) => {
            let found = table_of(parsed_entries(content, false));
            if found.contains_key(id) {
                Some(found[id])
            } else {
                None
            }
        },
        None => None,
    }
}

/// The entry that the machine translation `text` makes: the base entry with
/// `text` as its target.
pub open spec fn translated_entry(s: ResolverView, text: Seq<char>) -> TranslationView {
    TranslationView { comment: s.base_entry.comment, source: s.base_entry.source, target: text }
}

/// What the pipeline does when `event` comes in the state `s`.
///
/// An event that does not answer the action that was asked for counts as
/// that action's failure. A failed copy or load ends the pipeline with
/// `Error::Collaborator`. A phrase that no file of the base locale holds ends
/// it with `Error::NotFound`; one that a file of the target locale holds ends
/// it with that translation. A failed search or fetch lets the pipeline go
/// on; a failed machine translation ends it with `Error::Unresolved`. An
/// entry that comes from a candidate or from the machine translation is to
/// be stored in the target localization under the phrase's key. A pipeline
/// that is done answers every event with its result.
pub open spec fn step_of(s: ResolverView, event: Event) -> Step {
    match s.stage {
        Stage::Copying => match event {
            Event::Copied => Step {
                state: ResolverView { stage: Stage::Loading, ..s },
                action: load_action(s),
                stored: None,
            },
            _ => finish(s, Err(Error::Collaborator), None),
        },
        Stage::Loading => match event {
            Event::Loaded { base, target } => {
                let base_dir = locale_dir_path(s.root, s.base_locale);
                let target_dir = locale_dir_path(s.root, s.target_locale);
                match first_holding(readings(base_dir, base@, true), s.id) {
                    None => finish(s, Err(Error::NotFound), None),
                    Some(entry) => match first_holding(
                        readings(target_dir, target@, false),
                        s.id,
                    ) {
                        Some(hit) => finish(s, Ok(hit.target), None),
                        None => Step {
                            state: ResolverView {
                                stage: Stage::Searching,
                                base_entry: entry,
                                ..s
                            },
                            action: ActionView::Search {
                                phrase: s.phrase,
                                locale: s.target_locale,
                            },
                            stored: None,
                        },
                    },
                }
            },
            _ => finish(s, Err(Error::Collaborator), None),
        },
        Stage::Searching => match event {
            Event::Candidates(found) => advance(
                ResolverView { candidates: texts(found@), next: 0, ..s },
            ),
            _ => advance(ResolverView { candidates: Seq::empty(), next: 0, ..s }),
        },
        Stage::Fetching => match event {
            Event::Fetched(raw) => match remote_hit(raw@, s.id) {
                Some(entry) => finish(s, Ok(entry.target), Some(entry)),
                None => advance(ResolverView { next: s.next + 1, ..s }),
            },
            _ => advance(ResolverView { next: s.next + 1, ..s }),
        },
        Stage::Translating => match event {
            Event::Translated(text) => finish(s, Ok(text@), Some(translated_entry(s, text@))),
            _ => finish(s, Err(Error::Unresolved), None),
        },
        Stage::Done => Step { state: s, action: ActionView::Finish(s.outcome), stored: None },
    }
}

/// The translations of the target localization after a step: an entry that
/// the step found is stored under the phrase's key.
pub open spec fn merge(
    held: Map<Seq<char>, TranslationView>,
    id: Seq<char>,
    stored: Option<TranslationView>,
) -> Map<Seq<char>, TranslationView> {
    match stored {
        Some(entry) => held.insert(id, entry),
        None => held,
    }
}

/// The query that asks the code search for `.strings` files of the locale
/// `lang` that hold `text`.
pub open spec fn query_text(text: Seq<char>, lang: Seq<char>) -> Seq<char> {
    "\""@ + text + "\" path:"@ + lang + ".lproj extension:strings"@
}

/// The query that asks the code search for `.strings` files of the locale
/// `lang` that hold `text`.
pub fn search_query(text: &str, lang: &str) -> (query: String)
    ensures
        query@ == query_text(text@, lang@),
{
    let mut query = String::new();
    query.append("\"");
    query.append(text);
    query.append("\" path:");
    query.append(lang);
    query.append(".lproj extension:strings");
    assert(query@ =~= query_text(text@, lang@));
    query
}

/// Decides whether `wanted` is among `names`.
fn is_among(names: &Vec<String>, wanted: &str) -> (held: bool)
    ensures
        held == texts(names@).contains(wanted@),
{
    let key = wanted.to_owned();
    let mut i: usize = 0;
    while i < names.len()
        invariant
            i <= names@.len(),
            key@ == wanted@,
            forall|k: int| 0 <= k < i ==> texts(names@)[k] != wanted@,
        decreases names@.len() - i,
    {
        if names[i] == key {
            assert(texts(names@)[i as int] == wanted@);
            return true;
        }
        i += 1;
    }
    false
}

/// A copy of a result.
fn same_outcome(outcome: &Result<String, Error>) -> (copy: Result<String, Error>)
    ensures
        outcome_view(copy) == outcome_view(*outcome),
{
    match outcome {
        Ok(text) => Ok(text.clone()),
        Err(e) => Err(*e),
    }
}

impl Resolver {
    /// The state is one that a pipeline can be in.
    pub open spec fn wf(&self) -> bool {
        valid(self@)
    }

    /// Begins the pipeline for `phrase`. `locales` are the locales that the
    /// project at `root` has.
    pub fn new(
        root: &str,
        phrase: &str,
        base_locale: &str,
        target_locale: &str,
        locales: &Vec<String>,
    ) -> (begun: (Resolver, Action))
        ensures
            begun.0.wf(),
            begun.0@ == start(root@, phrase@, base_locale@, target_locale@, texts(locales@)).state,
            begun.1@ == start(
                root@,
                phrase@,
                base_locale@,
                target_locale@,
                texts(locales@),
            ).action,
    {
        let exists = is_among(locales, target_locale);
        let resolver = Resolver {
            root: root.to_owned(),
            phrase: phrase.to_owned(),
            base_locale: base_locale.to_owned(),
            target_locale: target_locale.to_owned(),
            id: lowercase(phrase),
            stage: if exists {
                Stage::Loading
            } else {
                Stage::Copying
            },
            base_entry: Translation {
                comment: String::new(),
                source: String::new(),
                target: String::new(),
            },
            candidates: Vec::new(),
            next: 0,
            outcome: Err(Error::Unresolved),
        };
        assert(texts(resolver.candidates@) =~= Seq::<Seq<char>>::empty());
        let action = if exists {
            resolver.load()
        } else {
            Action::CopyTree {
                source: locale_dir(root, base_locale),
                dest: locale_dir(root, target_locale),
            }
        };
        (resolver, action)
    }

    /// Whether the pipeline is done.
    pub fn is_done(&self) -> (done: bool)
        ensures
            done == (self@.stage == Stage::Done),
    {
        self.stage == Stage::Done
    }

    /// The key under which the phrase is looked up.
    pub fn id(&self) -> (id: &str)
        ensures
            id@ == self@.id,
    {
        self.id.as_str()
    }

    fn load(&self) -> (action: Action)
        ensures
            action@ == load_action(self@),
    {
        Action::Load {
            base_dir: locale_dir(self.root.as_str(), self.base_locale.as_str()),
            target_dir: locale_dir(self.root.as_str(), self.target_locale.as_str()),
        }
    }

    fn end(&mut self, outcome: Result<String, Error>) -> (action: Action)
        requires
            old(self).wf(),
        ensures
            final(self).wf(),
            final(self)@ == finish(old(self)@, outcome_view(outcome), None).state,
            action@ == finish(old(self)@, outcome_view(outcome), None).action,
    {
        let action = Action::Finish(same_outcome(&outcome));
        self.stage = Stage::Done;
        self.outcome = outcome;
        action
    }

    fn turn(&mut self) -> (action: Action)
        requires
            old(self).next <= old(self).candidates@.len(),
        ensures
            final(self).wf(),
            final(self)@ == advance(old(self)@).state,
            action@ == advance(old(self)@).action,
    {
        if self.next < self.candidates.len() {
            self.stage = Stage::Fetching;
            Action::Fetch { reference: self.candidates[self.next].clone() }
        } else {
            self.stage = Stage::Translating;
            Action::Translate {
                phrase: self.phrase.clone(),
                source_lang: self.base_locale.clone(),
                target_lang: self.target_locale.clone(),
            }
        }
    }

    /// Takes what came of the last action and names the next one. An entry
    /// found in a candidate or made by the machine translation is stored in
    /// `into` under the phrase's key, in place of one that `into` held there.
    pub fn step(&mut self, event: Event, into: &mut Localization) -> (action: Action)
        requires
            old(self).wf(),
            old(into).wf(),
        ensures
            final(self).wf(),
            final(self)@ == step_of(old(self)@, event).state,
            action@ == step_of(old(self)@, event).action,
            final(into).wf(),
            final(into).locale == old(into).locale,
            final(into).translations@ == merge(
                old(into).translations@,
                old(self)@.id,
                step_of(old(self)@, event).stored,
            ),
            final(into).translations.order() == if step_of(old(self)@, event).stored is Some
                && !old(into).translations@.contains_key(old(self)@.id) {
                old(into).translations.order().push(old(self)@.id)
            } else {
                old(into).translations.order()
            },
    {
        match self.stage {
            Stage::Copying => match event {
                Event::Copied => {
                    self.stage = Stage::Loading;
                    self.load()
                },
                _ => self.end(Err(Error::Collaborator)),
            },
            Stage::Loading => match event {
                Event::Loaded { base, target } => self.look_up(&base, &target),
                _ => self.end(Err(Error::Collaborator)),
            },
            Stage::Searching => {
                match event {
                    Event::Candidates(found) => {
                        self.candidates = found;
                    },
                    _ => {
                        self.candidates = Vec::new();
                        assert(texts(self.candidates@) =~= Seq::<Seq<char>>::empty());
                    },
                }
                self.next = 0;
                self.turn()
            },
            Stage::Fetching => {
                let hit = match event {
                    Event::Fetched(raw) => self.hit_in(raw.as_slice()),
                    _ => None,
                };
                match hit {
                    Some(entry) => {
                        let text = entry.target.clone();
                        into.translations.insert(self.id.clone(), entry);
                        self.end(Ok(text))
                    },
                    None => {
                        let found = self.candidates.len();
                        assert(self.next < found);
                        self.next = self.next + 1;
                        self.turn()
                    },
                }
            },
            Stage::Translating => match event {
                Event::Translated(text) => {
                    let entry = Translation {
                        comment: self.base_entry.comment.clone(),
                        source: self.base_entry.source.clone(),
                        target: text.clone(),
                    };
                    into.translations.insert(self.id.clone(), entry);
                    self.end(Ok(text))
                },
                _ => self.end(Err(Error::Unresolved)),
            },
            Stage::Done => Action::Finish(same_outcome(&self.outcome)),
        }
    }

    fn hit_in(&self, raw: &[u8]) -> (hit: Option<Translation>)
        ensures
            match hit {
                Some(entry) => remote_hit(raw@, self@.id) == Some(entry@),
                None => remote_hit(raw@, self@.id) is None,
            },
    {
        match Localization::parse(self.target_locale.as_str(), raw, false) {
            Ok(remote) => match remote.translations.get(self.id.as_str()) {
                Some(entry) => Some(entry.clone()),
                None => None,
            },
            Err(_) => None,
        }
    }

    fn look_up(&mut self, base: &Vec<FileData>, target: &Vec<FileData>) -> (action: Action)
        requires
            old(self)@.stage == Stage::Loading,
            old(self).wf(),
        ensures
            final(self).wf(),
            final(self)@ == step_of(old(self)@, Event::Loaded { base: *base, target: *target }).state,
            action@ == step_of(old(self)@, Event::Loaded { base: *base, target: *target }).action,
            step_of(old(self)@, Event::Loaded { base: *base, target: *target }).stored is None,
    {
        let base_dir = locale_dir(self.root.as_str(), self.base_locale.as_str());
        let target_dir = locale_dir(self.root.as_str(), self.target_locale.as_str());
        let in_base = read_all(base_dir.as_str(), base, true);
        let entry = match find_in(&in_base, self.id.as_str()) {
            Some(entry) => entry.clone(),
            None => {
                return self.end(Err(Error::NotFound));
            },
        };
        let in_target = read_all(target_dir.as_str(), target, false);
        match find_in(&in_target, self.id.as_str()) {
            Some(hit) => {
                let text = hit.target.clone();
                self.end(Ok(text))
            },
            None => {
                self.base_entry = entry;
                self.stage = Stage::Searching;
                Action::Search {
                    phrase: self.phrase.clone(),
                    locale: self.target_locale.clone(),
                }
            },
        }
    }
}

/// What a run of the pipeline leaves: the last state, the actions that were
/// asked for on the way, and the translations of the target localization.
pub struct Trace {
    pub state: ResolverView,
    pub actions: Seq<ActionView>,
    pub merged: Map<Seq<char>, TranslationView>,
}

/// The run of the pipeline from the state `s` over `events`, each event
/// answering the action before it, while the target localization holds
/// `held` at first.
pub open spec fn run(s: ResolverView, events: Seq<Event>, held: Map<Seq<char>, TranslationView>)
    -> Trace
    decreases events.len(),
{
    if events.len() == 0 {
        Trace { state: s, actions: Seq::empty(), merged: held }
    } else {
        let step = step_of(s, events[0]);
        let rest = run(step.state, events.skip(1), merge(held, s.id, step.stored));
        Trace {
            state: rest.state,
            actions: seq![step.action] + rest.actions,
            merged: rest.merged,
        }
    }
}

/// A fetch that does not end the search: it failed, or the file lacks the
/// key.
pub open spec fn misses(event: Event, id: Seq<char>) -> bool {
    match event {
        Event::Fetched(raw) => remote_hit(raw@, id) is None,
        _ => true,
    }
}

/// An action that calls a collaborator: the code search, a fetch, the
/// machine translation or the directory copy.
pub open spec fn calls_collaborator(action: ActionView) -> bool {
    action is Search || action is Fetch || action is Translate || action is CopyTree
}

/// Every step keeps a valid state valid and leaves the phrase and its key as
/// they are.
pub proof fn lemma_step_keeps_valid(s: ResolverView, event: Event)
    requires
        valid(s),
    ensures
        valid(step_of(s, event).state),
        step_of(s, event).state.id == s.id,
        step_of(s, event).state.phrase == s.phrase,
        step_of(s, event).state.base_locale == s.base_locale,
        step_of(s, event).state.target_locale == s.target_locale,
{
}

/// A run over the events `first` and then `second` is the run over `second`
/// from where the run over `first` ended.
pub proof fn lemma_run_in_two(
    s: ResolverView,
    first: Seq<Event>,
    second: Seq<Event>,
    held: Map<Seq<char>, TranslationView>,
)
    requires
        valid(s),
    ensures
        run(s, first + second, held).state == run(
            run(s, first, held).state,
            second,
            run(s, first, held).merged,
        ).state,
        run(s, first + second, held).merged == run(
            run(s, first, held).state,
            second,
            run(s, first, held).merged,
        ).merged,
        run(s, first + second, held).actions == run(s, first, held).actions + run(
            run(s, first, held).state,
            second,
            run(s, first, held).merged,
        ).actions,
        valid(run(s, first, held).state),
        run(s, first, held).state.id == s.id,
    decreases first.len(),
{
    if first.len() == 0 {
        assert(first + second =~= second);
        assert(run(s, first, held).actions + run(s, second, held).actions =~= run(
            s,
            second,
            held,
        ).actions);
    } else {
        let step = step_of(s, first[0]);
        let next_held = merge(held, s.id, step.stored);
        lemma_step_keeps_valid(s, first[0]);
        assert((first + second)[0] == first[0]);
        assert((first + second).skip(1) =~= first.skip(1) + second);
        lemma_run_in_two(step.state, first.skip(1), second, next_held);
        let tail = run(step.state, first.skip(1), next_held);
        let after = run(tail.state, second, tail.merged);
        assert(seq![step.action] + (tail.actions + after.actions) =~= (seq![step.action]
            + tail.actions) + after.actions);
    }
}

/// While the candidates lack the phrase the pipeline fetches one after the
/// other: after `fetches.len()` misses it has asked for the candidates that
/// follow, or, at the end of the candidates, for the machine translation.
pub proof fn lemma_misses_go_on(
    s: ResolverView,
    fetches: Seq<Event>,
    held: Map<Seq<char>, TranslationView>,
)
    requires
        valid(s),
        s.stage == Stage::Fetching,
        s.next + fetches.len() <= s.candidates.len(),
        forall|i: int| 0 <= i < fetches.len() ==> misses(#[trigger] fetches[i], s.id),
    ensures
        run(s, fetches, held).merged == held,
        run(s, fetches, held).actions.len() == fetches.len(),
        forall|i: int|
            0 <= i < fetches.len() ==> #[trigger] run(s, fetches, held).actions[i] == (if s.next
                + i + 1 < s.candidates.len() {
                ActionView::Fetch { reference: s.candidates[s.next + i + 1] }
            } else {
                translate_action(s)
            }),
        run(s, fetches, held).state == (if fetches.len() == 0 {
            s
        } else if s.next + fetches.len() < s.candidates.len() {
            ResolverView { next: s.next + fetches.len(), ..s }
        } else {
            ResolverView { stage: Stage::Translating, next: s.next + fetches.len(), ..s }
        }),
    decreases fetches.len(),
{
    if fetches.len() > 0 {
        let step = step_of(s, fetches[0]);
        assert(misses(fetches[0], s.id));
        assert(step == advance(ResolverView { next: s.next + 1, ..s }));
        let rest = fetches.skip(1);
        if rest.len() > 0 {
            assert forall|i: int| 0 <= i < rest.len() implies misses(#[trigger] rest[i], s.id) by {
                assert(rest[i] == fetches[i + 1]);
            }
            lemma_misses_go_on(step.state, rest, held);
            let tail = run(step.state, rest, held);
            assert forall|i: int| 0 <= i < fetches.len() implies #[trigger] run(
                s,
                fetches,
                held,
            ).actions[i] == (if s.next + i + 1 < s.candidates.len() {
                ActionView::Fetch { reference: s.candidates[s.next + i + 1] }
            } else {
                translate_action(s)
            }) by {
                if i > 0 {
                    assert(run(s, fetches, held).actions[i] == tail.actions[i - 1]);
                }
            }
        } else {
            assert(run(step.state, rest, held).actions =~= Seq::<ActionView>::empty());
        }
    }
}

/// A phrase that the local files lack and that a candidate of the remote
/// corpus holds is resolved from that candidate, without machine
/// translation.
///
/// The pipeline has loaded the local files: `base` holds the phrase and
/// `target` lacks it. The search finds `found`; the fetches before the last
/// miss, and the last gives a file that stores `entry` under the phrase's
/// key. Then the pipeline asks for the search and for the candidates in
/// their order up to that one, never for a translation, ends with the
/// target of `entry`, and stores `entry` in the target localization.
pub proof fn lemma_remote_hit_resolves(
    s: ResolverView,
    base: Vec<FileData>,
    target: Vec<FileData>,
    found: Vec<String>,
    fetches: Seq<Event>,
    entry: TranslationView,
    held: Map<Seq<char>, TranslationView>,
)
    requires
        valid(s),
        s.stage == Stage::Loading,
        first_holding(readings(locale_dir_path(s.root, s.base_locale), base@, true), s.id)
            is Some,
        first_holding(readings(locale_dir_path(s.root, s.target_locale), target@, false), s.id)
            is None,
        0 < fetches.len() <= found@.len(),
        forall|i: int| 0 <= i < fetches.len() - 1 ==> misses(#[trigger] fetches[i], s.id),
        fetches.last() matches Event::Fetched(raw) && remote_hit(raw@, s.id) == Some(entry),
    ensures
        ({
            let events = seq![Event::Loaded { base, target }, Event::Candidates(found)] + fetches;
            let trace = run(s, events, held);
            &&& trace.actions.len() == fetches.len() + 2
            &&& trace.actions[0] == ActionView::Search { phrase: s.phrase, locale: s.target_locale }
            &&& forall|i: int|
                0 <= i < fetches.len() ==> #[trigger] trace.actions[i + 1] == ActionView::Fetch {
                    reference: found@[i]@,
                }
            &&& trace.actions.last() == ActionView::Finish(Ok(entry.target))
            &&& forall|i: int| 0 <= i < trace.actions.len() ==> !(#[trigger] trace.actions[i]
                is Translate)
            &&& trace.merged == held.insert(s.id, entry)
            &&& trace.state.stage == Stage::Done
            &&& trace.state.outcome == Ok::<Seq<char>, Error>(entry.target)
        }),
{
    let loaded = Event::Loaded { base, target };
    let head = seq![loaded, Event::Candidates(found)];
    let events = head + fetches;
    let s1 = step_of(s, loaded).state;
    let step2 = step_of(s1, Event::Candidates(found));
    let s2 = step2.state;
    assert(head.skip(1) =~= seq![Event::Candidates(found)]);
    assert(head.skip(1).skip(1) =~= Seq::<Event>::empty());
    let head_run = run(s, head, held);
    assert(run(s2, head.skip(1).skip(1), held).actions =~= Seq::<ActionView>::empty());
    assert(run(s1, head.skip(1), held).actions =~= seq![step2.action]);
    assert(head_run.actions =~= seq![step_of(s, loaded).action, step2.action]);
    assert(head_run.state == s2);
    assert(head_run.merged == held);
    assert(s2.stage == Stage::Fetching);
    assert(s2.candidates == texts(found@));
    lemma_run_in_two(s, head, fetches, held);
    let misses_only = fetches.drop_last();
    let last = seq![fetches.last()];
    assert(fetches =~= misses_only + last);
    assert forall|i: int| 0 <= i < misses_only.len() implies misses(
        #[trigger] misses_only[i],
        s2.id,
    ) by {
        assert(misses_only[i] == fetches[i]);
    }
    lemma_misses_go_on(s2, misses_only, held);
    lemma_run_in_two(s2, misses_only, last, held);
    let middle = run(s2, misses_only, held);
    let s3 = middle.state;
    assert(s3.stage == Stage::Fetching);
    let end_step = step_of(s3, fetches.last());
    assert(last.skip(1) =~= Seq::<Event>::empty());
    assert(run(end_step.state, last.skip(1), merge(held, s3.id, end_step.stored)).actions
        =~= Seq::<ActionView>::empty());
    let end_run = run(s3, last, held);
    assert(end_run.actions =~= seq![end_step.action]);
    let fetch_run = run(s2, fetches, held);
    assert(fetch_run.actions =~= middle.actions + seq![end_step.action]);
    let trace = run(s, events, held);
    assert(trace.actions =~= head_run.actions + fetch_run.actions);
    assert forall|i: int| 0 <= i < fetches.len() implies #[trigger] trace.actions[i + 1]
        == (ActionView::Fetch { reference: found@[i]@ }) by {
        if i == 0 {
        } else {
            assert(trace.actions[i + 1] == middle.actions[i - 1]);
        }
    }
    assert forall|i: int| 0 <= i < trace.actions.len() implies !(#[trigger] trace.actions[i]
        is Translate) by {
        if 1 <= i < trace.actions.len() - 1 {
            assert(trace.actions[(i - 1) + 1] == ActionView::Fetch { reference: found@[i - 1]@ });
        }
    }
}

/// A phrase that the local files and every candidate of the remote corpus
/// lack is resolved by one machine translation.
///
/// The pipeline has loaded the local files: `base` holds the phrase and
/// `target` lacks it. The search fails, or it finds candidates and every one
/// of them misses. Then the pipeline asks for the translation of the phrase
/// from the base into the target locale once, after the last candidate; it
/// ends with the translated text and stores the base entry with that text as
/// its target in the target localization.
pub proof fn lemma_machine_translation_resolves(
    s: ResolverView,
    base: Vec<FileData>,
    target: Vec<FileData>,
    search: Event,
    fetches: Seq<Event>,
    text: String,
    held: Map<Seq<char>, TranslationView>,
)
    requires
        valid(s),
        s.stage == Stage::Loading,
        first_holding(readings(locale_dir_path(s.root, s.base_locale), base@, true), s.id)
            is Some,
        first_holding(readings(locale_dir_path(s.root, s.target_locale), target@, false), s.id)
            is None,
        match search {
            Event::Candidates(found) => fetches.len() == found@.len(),
            _ => fetches.len() == 0,
        },
        forall|i: int| 0 <= i < fetches.len() ==> misses(#[trigger] fetches[i], s.id),
    ensures
        ({
            let events = seq![Event::Loaded { base, target }, search] + fetches + seq![
                Event::Translated(text),
            ];
            let trace = run(s, events, held);
            let base_entry = first_holding(
                readings(locale_dir_path(s.root, s.base_locale), base@, true),
                s.id,
            )->Some_0;
            let made = TranslationView {
                comment: base_entry.comment,
                source: base_entry.source,
                target: text@,
            };
            &&& trace.actions.len() == fetches.len() + 3
            &&& trace.actions[fetches.len() as int + 1] == ActionView::Translate {
                phrase: s.phrase,
                source_lang: s.base_locale,
                target_lang: s.target_locale,
            }
            &&& forall|i: int|
                0 <= i < trace.actions.len() && i != fetches.len() + 1 ==> !(
                #[trigger] trace.actions[i] is Translate)
            &&& trace.actions.last() == ActionView::Finish(Ok(text@))
            &&& trace.merged == held.insert(s.id, made)
            &&& trace.state.stage == Stage::Done
            &&& trace.state.outcome == Ok::<Seq<char>, Error>(text@)
        }),
{
    let loaded = Event::Loaded { base, target };
    let head = seq![loaded, search];
    let last = seq![Event::Translated(text)];
    let s1 = step_of(s, loaded).state;
    let step2 = step_of(s1, search);
    let s2 = step2.state;
    assert(head.skip(1) =~= seq![search]);
    assert(head.skip(1).skip(1) =~= Seq::<Event>::empty());
    let head_run = run(s, head, held);
    assert(run(s2, head.skip(1).skip(1), held).actions =~= Seq::<ActionView>::empty());
    assert(run(s1, head.skip(1), held).actions =~= seq![step2.action]);
    assert(head_run.actions =~= seq![step_of(s, loaded).action, step2.action]);
    assert(head_run.state == s2);
    assert(head_run.merged == held);
    lemma_run_in_two(s, head, fetches, held);
    lemma_run_in_two(s, head + fetches, last, held);
    let middle = run(s2, fetches, held);
    if fetches.len() > 0 {
        assert(s2.stage == Stage::Fetching);
        lemma_misses_go_on(s2, fetches, held);
    } else {
        assert(s2.stage == Stage::Translating);
        assert(middle.actions =~= Seq::<ActionView>::empty());
    }
    let s3 = middle.state;
    assert(s3.stage == Stage::Translating);
    let end_step = step_of(s3, Event::Translated(text));
    assert(last.skip(1) =~= Seq::<Event>::empty());
    assert(run(end_step.state, last.skip(1), merge(held, s3.id, end_step.stored)).actions
        =~= Seq::<ActionView>::empty());
    let end_run = run(s3, last, held);
    assert(end_run.actions =~= seq![end_step.action]);
    let before = run(s, head + fetches, held);
    assert(before.actions =~= head_run.actions + middle.actions);
    assert(before.state == s3);
    let trace = run(s, head + fetches + last, held);
    assert(trace.actions =~= before.actions + end_run.actions);
    assert forall|i: int|
        0 <= i < trace.actions.len() && i != fetches.len() + 1 implies !(#[trigger] trace.actions[i]
        is Translate) by {
        if 2 <= i < fetches.len() + 1 {
            assert(trace.actions[i] == middle.actions[i - 2]);
        } else if i == 1 {
            assert(trace.actions[1] == step2.action);
        }
    }
}

/// Where the target locale has no directory yet, the pipeline begins by
/// asking for one copy of the base locale's directory to the target
/// locale's. The local files are asked for only when the copy is reported,
/// and whatever comes afterwards, no second copy is asked for.
pub proof fn lemma_bootstrap_copies_once(
    root: Seq<char>,
    phrase: Seq<char>,
    base_locale: Seq<char>,
    target_locale: Seq<char>,
    locales: Seq<Seq<char>>,
    events: Seq<Event>,
    held: Map<Seq<char>, TranslationView>,
)
    requires
        !locales.contains(target_locale),
    ensures
        ({
            let begun = start(root, phrase, base_locale, target_locale, locales);
            let trace = run(begun.state, events, held);
            &&& begun.action == ActionView::CopyTree {
                source: locale_dir_path(root, base_locale),
                dest: locale_dir_path(root, target_locale),
            }
            &&& begun.state.stage == Stage::Copying
            &&& events.len() > 0 ==> (trace.actions[0] is Load <==> events[0] is Copied)
            &&& forall|i: int| 0 <= i < trace.actions.len() ==> !(#[trigger] trace.actions[i]
                is CopyTree)
        }),
{
    let begun = start(root, phrase, base_locale, target_locale, locales);
    lemma_never_copies_again(begun.state, events, held);
}

/// No step asks for a copy: the only one is asked for at the start.
pub proof fn lemma_never_copies_again(
    s: ResolverView,
    events: Seq<Event>,
    held: Map<Seq<char>, TranslationView>,
)
    ensures
        forall|i: int| 0 <= i < run(s, events, held).actions.len() ==> !(#[trigger] run(
            s,
            events,
            held,
        ).actions[i] is CopyTree),
    decreases events.len(),
{
    if events.len() > 0 {
        let step = step_of(s, events[0]);
        let next_held = merge(held, s.id, step.stored);
        lemma_never_copies_again(step.state, events.skip(1), next_held);
        let tail = run(step.state, events.skip(1), next_held);
        assert forall|i: int| 0 <= i < run(s, events, held).actions.len() implies !(#[trigger] run(
            s,
            events,
            held,
        ).actions[i] is CopyTree) by {
            if i > 0 {
                assert(run(s, events, held).actions[i] == tail.actions[i - 1]);
            }
        }
    }
}

/// A phrase that the local files hold is resolved from them alone, and to
/// the same value every time.
///
/// Where the target locale has its directory and the files of both locales
/// hold the phrase, the pipeline asks for the local files and ends at once
/// with what the target files store: it calls no collaborator and changes
/// nothing. The result depends on the files and the phrase alone, so a
/// second resolution over the same files ends in the same way.
pub proof fn lemma_local_hit_is_final(
    root: Seq<char>,
    phrase: Seq<char>,
    base_locale: Seq<char>,
    target_locale: Seq<char>,
    locales: Seq<Seq<char>>,
    base: Vec<FileData>,
    target: Vec<FileData>,
    held: Map<Seq<char>, TranslationView>,
)
    requires
        locales.contains(target_locale),
        first_holding(
            readings(locale_dir_path(root, base_locale), base@, true),
            lowercased(phrase),
        ) is Some,
        first_holding(
            readings(locale_dir_path(root, target_locale), target@, false),
            lowercased(phrase),
        ) is Some,
    ensures
        ({
            let begun = start(root, phrase, base_locale, target_locale, locales);
            let trace = run(begun.state, seq![Event::Loaded { base, target }], held);
            let hit = first_holding(
                readings(locale_dir_path(root, target_locale), target@, false),
                lowercased(phrase),
            )->Some_0;
            &&& !calls_collaborator(begun.action)
            &&& trace.actions == seq![ActionView::Finish(Ok(hit.target))]
            &&& trace.merged == held
            &&& trace.state.stage == Stage::Done
        }),
{
    let begun = start(root, phrase, base_locale, target_locale, locales);
    let events = seq![Event::Loaded { base, target }];
    let step = step_of(begun.state, events[0]);
    assert(events.skip(1) =~= Seq::<Event>::empty());
    assert(run(step.state, events.skip(1), held).actions =~= Seq::<ActionView>::empty());
    assert(run(begun.state, events, held).actions =~= seq![step.action]);
}

} // verus!
