//! The `.strings` text format: one entry per line, written as two quoted
//! segments, with comments that are attached to the entry that follows them.

use vstd::prelude::*;
use crate::encoding::{decode, decoded};
use crate::error::Error;
use crate::table::{Translation, TranslationMap, TranslationView};
use crate::text::{
    append, ends, ends_with, find, index_of, lemma_index_of, lowercase, lowercased, split, to_chars, to_text,
};

verus! {

/// Where the scan stands between two lines.
#[derive(Debug, Clone, Copy, PartialEq, Eq, Structural)]
pub enum Cursor {
    /// Outside any comment.
    Idle,
    /// Inside a comment that no line has closed yet.
    InBlockComment,
}

/// What the scan has gathered after some lines.
pub struct Scan {
    pub cursor: Cursor,
    /// The comment lines read since the last entry.
    pub comment: Seq<char>,
    /// The entries read so far, in file order.
    pub entries: Seq<TranslationView>,
}

/// The scan before the first line.
pub open spec fn scan_start() -> Scan {
    Scan { cursor: Cursor::Idle, comment: Seq::empty(), entries: Seq::empty() }
}

/// A line that opens a comment: it starts with `//` or `/*`.
pub open spec fn opens_comment(line: Seq<char>) -> bool {
    line.len() >= 2 && line[0] == '/' && (line[1] == '/' || line[1] == '*')
}

/// A line that closes a comment: it ends with `*/`.
pub open spec fn closes_comment(line: Seq<char>) -> bool {
    line.len() >= 2 && line[line.len() - 2] == '*' && line[line.len() - 1] == '/'
}

/// A piece of an entry line that counts as a segment: it is not empty, not
/// the lone `;` that ends an entry, and holds no `=`.
pub open spec fn is_segment(piece: Seq<char>) -> bool {
    piece.len() > 0 && !(piece.len() == 1 && piece[0] == ';') && !piece.contains('=')
}

/// The segments of an entry line: its pieces between double quotes, without
/// those that `is_segment` discards.
pub open spec fn segments(line: Seq<char>) -> Seq<Seq<char>> {
    split(line, '"').filter(|piece: Seq<char>| is_segment(piece))
}

/// The entry that a line outside comments stands for. A line is an entry if it
/// has exactly two segments; the first is the source and the second the
/// target, the other way round when `inversed`.
pub open spec fn entry_of(line: Seq<char>, comment: Seq<char>, inversed: bool) -> Option<
    TranslationView,
> {
    let found = segments(line);
    if found.len() != 2 {
        None
    } else if inversed {
        Some(TranslationView { comment, source: found[1], target: found[0] })
    } else {
        Some(TranslationView { comment, source: found[0], target: found[1] })
    }
}

/// The scan after one more line.
///
/// An empty line changes nothing. A line that opens a comment, and any line
/// while a comment is open, is added to the comment; the comment stays open
/// unless that line ends with `*/`. Any other line is an entry or is passed
/// over; an entry takes the comment gathered so far, which then starts anew.
pub open spec fn scan_line(before: Scan, line: Seq<char>, inversed: bool) -> Scan {
    if line.len() == 0 {
        before
    } else if opens_comment(line) || before.cursor == Cursor::InBlockComment {
        Scan {
            cursor: if closes_comment(line) {
                Cursor::Idle
            } else {
                Cursor::InBlockComment
            },
            comment: before.comment + line,
            entries: before.entries,
        }
    } else {
        match entry_of(line, before.comment, inversed) {
            Some(entry) => Scan {
                cursor: Cursor::Idle,
                comment: Seq::empty(),
                entries: before.entries.push(entry),
            },
            None => before,
        }
    }
}

/// A line without the carriage return that may stand before its line feed.
pub open spec fn without_cr(line: Seq<char>) -> Seq<char> {
    if line.len() > 0 && line.last() == '\r' {
        line.drop_last()
    } else {
        line
    }
}

/// The scan after all lines of `content`, begun at `before`. A line ends at a
/// line feed; what follows the last line feed is the last line.
pub open spec fn scan(content: Seq<char>, before: Scan, inversed: bool) -> Scan
    decreases content.len(),
{
    let n = index_of(content, '\n');
    if 0 <= n < content.len() {
        scan(content.skip(n + 1), scan_line(before, without_cr(content.take(n)), inversed), inversed)
    } else {
        scan_line(before, content, inversed)
    }
}

/// The entries that `content` holds, in file order.
pub open spec fn parsed_entries(content: Seq<char>, inversed: bool) -> Seq<TranslationView> {
    scan(content, scan_start(), inversed).entries
}

/// The key under which an entry is filed: the lowercase of its source.
pub open spec fn key_of(entry: TranslationView) -> Seq<char> {
    lowercased(entry.source)
}

/// The mapping that results from filing `entries` one after the other; a
/// later entry replaces an earlier one with the same key.
pub open spec fn table_of(entries: Seq<TranslationView>) -> Map<Seq<char>, TranslationView>
    decreases entries.len(),
{
    if entries.len() == 0 {
        Map::empty()
    } else {
        table_of(entries.drop_last()).insert(key_of(entries.last()), entries.last())
    }
}

/// The keys of `entries` in the order of their first occurrence.
pub open spec fn order_of(entries: Seq<TranslationView>) -> Seq<Seq<char>>
    decreases entries.len(),
{
    if entries.len() == 0 {
        Seq::empty()
    } else {
        let earlier = order_of(entries.drop_last());
        if table_of(entries.drop_last()).contains_key(key_of(entries.last())) {
            earlier
        } else {
            earlier.push(key_of(entries.last()))
        }
    }
}

/// An entry with its source and target exchanged.
pub open spec fn exchanged(entry: TranslationView) -> TranslationView {
    TranslationView { comment: entry.comment, source: entry.target, target: entry.source }
}

/// Each of `entries` with its source and target exchanged.
pub open spec fn all_exchanged(entries: Seq<TranslationView>) -> Seq<TranslationView> {
    Seq::new(entries.len(), |i: int| exchanged(entries[i]))
}

/// No two of `entries` have the same key.
pub open spec fn distinct_keys(entries: Seq<TranslationView>) -> bool {
    forall|i: int, j: int|
        0 <= i < j < entries.len() ==> key_of(#[trigger] entries[i]) != key_of(
            #[trigger] entries[j],
        )
}

/// The mapping made of some entries holds exactly their keys, and no more
/// entries than there are.
pub proof fn lemma_table_keys(entries: Seq<TranslationView>)
    ensures
        table_of(entries).dom().finite(),
        table_of(entries).len() <= entries.len(),
        forall|k: Seq<char>| #[trigger]
            table_of(entries).contains_key(k) <==> exists|i: int|
                0 <= i < entries.len() && key_of(#[trigger] entries[i]) == k,
    decreases entries.len(),
{
    if entries.len() > 0 {
        let earlier = entries.drop_last();
        lemma_table_keys(earlier);
        assert forall|k: Seq<char>| #[trigger]
            table_of(entries).contains_key(k) implies exists|i: int|
            0 <= i < entries.len() && key_of(#[trigger] entries[i]) == k by {
            if k == key_of(entries.last()) {
                assert(key_of(entries[entries.len() - 1]) == k);
            } else {
                assert(table_of(earlier).contains_key(k));
                let i = choose|i: int| 0 <= i < earlier.len() && key_of(#[trigger] earlier[i]) == k;
                assert(key_of(entries[i]) == k);
            }
        }
        assert forall|k: Seq<char>|
            (exists|i: int|
                0 <= i < entries.len() && key_of(#[trigger] entries[i]) == k) implies #[trigger]
            table_of(entries).contains_key(k) by {
            let i = choose|i: int| 0 <= i < entries.len() && key_of(#[trigger] entries[i]) == k;
            if i < entries.len() - 1 {
                assert(key_of(earlier[i]) == k);
            }
        }
    }
}

/// Last write wins: the mapping made of some entries stores under each key
/// the last entry that has this key.
pub proof fn lemma_last_write_wins(entries: Seq<TranslationView>, i: int)
    requires
        0 <= i < entries.len(),
        forall|j: int| i < j < entries.len() ==> key_of(#[trigger] entries[j]) != key_of(entries[i]),
    ensures
        table_of(entries).contains_key(key_of(entries[i])),
        table_of(entries)[key_of(entries[i])] == entries[i],
    decreases entries.len(),
{
    if i < entries.len() - 1 {
        let earlier = entries.drop_last();
        assert(key_of(entries[entries.len() - 1]) != key_of(entries[i]));
        assert forall|j: int| i < j < earlier.len() implies key_of(#[trigger] earlier[j]) != key_of(
            earlier[i],
        ) by {
            assert(earlier[j] == entries[j]);
        }
        lemma_last_write_wins(earlier, i);
    }
}

/// Two entries whose sources have the same lowercase share one place in the
/// mapping: of two that follow each other only the later one is kept.
pub proof fn lemma_same_key_collides(
    entries: Seq<TranslationView>,
    first: TranslationView,
    second: TranslationView,
)
    requires
        lowercased(first.source) == lowercased(second.source),
    ensures
        table_of(entries.push(first).push(second)) == table_of(entries.push(second)),
        table_of(entries.push(first).push(second))[key_of(first)] == second,
        order_of(entries.push(first).push(second)) == order_of(entries.push(second)),
{
    let one = entries.push(first);
    let both = one.push(second);
    let other = entries.push(second);
    assert(both.drop_last() =~= one && both.last() == second);
    assert(one.drop_last() =~= entries && one.last() == first);
    assert(other.drop_last() =~= entries && other.last() == second);
    assert(table_of(one) == table_of(entries).insert(key_of(first), first));
    assert(table_of(both) == table_of(one).insert(key_of(second), second));
    assert(table_of(other) == table_of(entries).insert(key_of(second), second));
    assert(table_of(both) =~= table_of(other));
    assert(order_of(one) == if table_of(entries).contains_key(key_of(first)) {
        order_of(entries)
    } else {
        order_of(entries).push(key_of(first))
    });
    assert(order_of(both) == order_of(one));
}

/// Where no two entries have the same key, the mapping holds every entry
/// unchanged under its key, as many as there are, in their order.
pub proof fn lemma_distinct_keys_keep_all(entries: Seq<TranslationView>)
    requires
        distinct_keys(entries),
    ensures
        table_of(entries).len() == entries.len(),
        order_of(entries) == Seq::new(entries.len(), |i: int| key_of(entries[i])),
        forall|i: int|
            0 <= i < entries.len() ==> table_of(entries).contains_key(
                key_of(#[trigger] entries[i]),
            ) && table_of(entries)[key_of(entries[i])] == entries[i],
    decreases entries.len(),
{
    lemma_table_keys(entries);
    if entries.len() > 0 {
        let earlier = entries.drop_last();
        assert(distinct_keys(earlier)) by {
            assert forall|i: int, j: int| 0 <= i < j < earlier.len() implies key_of(
                #[trigger] earlier[i],
            ) != key_of(#[trigger] earlier[j]) by {
                assert(earlier[i] == entries[i] && earlier[j] == entries[j]);
            }
        }
        lemma_distinct_keys_keep_all(earlier);
        lemma_table_keys(earlier);
        let last = entries.last();
        assert(!table_of(earlier).contains_key(key_of(last))) by {
            if table_of(earlier).contains_key(key_of(last)) {
                let i = choose|i: int|
                    0 <= i < earlier.len() && key_of(#[trigger] earlier[i]) == key_of(last);
                assert(earlier[i] == entries[i]);
                assert(key_of(entries[i]) != key_of(entries[entries.len() - 1]));
            }
        }
        assert(order_of(entries) =~= Seq::new(entries.len(), |i: int| key_of(entries[i])));
        assert forall|i: int| 0 <= i < entries.len() implies table_of(entries).contains_key(
            key_of(#[trigger] entries[i]),
        ) && table_of(entries)[key_of(entries[i])] == entries[i] by {
            if i < entries.len() - 1 {
                assert(earlier[i] == entries[i]);
                assert(key_of(entries[i]) != key_of(entries[entries.len() - 1]));
            }
        }
    } else {
        assert(order_of(entries) =~= Seq::new(entries.len(), |i: int| key_of(entries[i])));
    }
}

/// A scan with the source and target of every entry exchanged.
pub open spec fn scan_exchanged(state: Scan) -> Scan {
    Scan { cursor: state.cursor, comment: state.comment, entries: all_exchanged(state.entries) }
}

/// Reading a line with `inversed` set gives what reading it without gives,
/// with source and target exchanged.
pub proof fn lemma_line_inversed(before: Scan, line: Seq<char>)
    ensures
        scan_line(scan_exchanged(before), line, true) == scan_exchanged(
            scan_line(before, line, false),
        ),
{
    let plain = scan_line(before, line, false);
    let turned = scan_line(scan_exchanged(before), line, true);
    assert(turned.entries =~= all_exchanged(plain.entries));
}

/// Scanning with `inversed` set gives what scanning without gives, with the
/// source and target of every entry exchanged.
pub proof fn lemma_scan_inversed(content: Seq<char>, before: Scan)
    ensures
        scan(content, scan_exchanged(before), true) == scan_exchanged(
            scan(content, before, false),
        ),
    decreases content.len(),
{
    let n = index_of(content, '\n');
    if 0 <= n < content.len() {
        let line = without_cr(content.take(n));
        lemma_line_inversed(before, line);
        lemma_scan_inversed(content.skip(n + 1), scan_line(before, line, false));
    } else {
        lemma_line_inversed(before, content);
    }
}

/// Parsing a text with `inversed` set gives the entries that parsing it
/// without gives, each with its source and target exchanged: the one field
/// is the key of every entry where the other was.
pub proof fn lemma_inversed_exchanges(content: Seq<char>)
    ensures
        parsed_entries(content, true) == all_exchanged(parsed_entries(content, false)),
        forall|i: int|
            0 <= i < parsed_entries(content, true).len() ==> key_of(
                #[trigger] parsed_entries(content, true)[i],
            ) == lowercased(parsed_entries(content, false)[i].target),
{
    assert(scan_exchanged(scan_start()).entries =~= scan_start().entries);
    assert(scan_exchanged(scan_start()) == scan_start());
    lemma_scan_inversed(content, scan_start());
}

/// A text whose entries all have different keys is parsed into a
/// localization with as many translations as the text has entries, and each
/// is stored with its source and target as they were written.
pub proof fn lemma_parse_keeps_entries(locale: Seq<char>, content: Seq<char>, inversed: bool)
    requires
        distinct_keys(parsed_entries(content, inversed)),
    ensures
        Localization::reading(locale, content, inversed).translations.len() == parsed_entries(
            content,
            inversed,
        ).len(),
        forall|i: int|
            0 <= i < parsed_entries(content, inversed).len() ==> {
                let entry = #[trigger] parsed_entries(content, inversed)[i];
                &&& Localization::reading(locale, content, inversed).translations.contains_key(
                    key_of(entry),
                )
                &&& Localization::reading(locale, content, inversed).translations[key_of(entry)]
                    == entry
            },
{
    lemma_distinct_keys_keep_all(parsed_entries(content, inversed));
}

/// Decides `is_segment` for the piece `s[from..to]`.
fn keeps(s: &[char], from: usize, to: usize) -> (kept: bool)
    requires
        from <= to <= s@.len(),
    ensures
        kept == is_segment(s@.subrange(from as int, to as int)),
{
    let ghost piece = s@.subrange(from as int, to as int);
    if to == from {
        return false;
    }
    if to - from == 1 && s[from] == ';' {
        return false;
    }
    let at = find(s, from, to, '=');
    proof {
        lemma_index_of(piece, '=');
        if at < to {
            assert(piece[at - from] == '=');
        }
    }
    at == to
}

/// The two segments of the line `s[from..to]`, if it has exactly two.
fn two_segments(s: &[char], from: usize, to: usize) -> (found: Option<(String, String)>)
    requires
        from <= to <= s@.len(),
    ensures
        match found {
            Some((first, second)) => {
                &&& segments(s@.subrange(from as int, to as int)).len() == 2
                &&& first@ == segments(s@.subrange(from as int, to as int))[0]
                &&& second@ == segments(s@.subrange(from as int, to as int))[1]
            },
            None => segments(s@.subrange(from as int, to as int)).len() != 2,
        },
{
    let ghost line = s@.subrange(from as int, to as int);
    let ghost keep = |piece: Seq<char>| is_segment(piece);
    let ghost mut done: Seq<Seq<char>> = Seq::empty();
    let mut count: usize = 0;
    let mut first: (usize, usize) = (from, from);
    let mut second: (usize, usize) = (from, from);
    let mut start: usize = from;
    let mut finished = false;
    proof {
        reveal(Seq::filter);
        assert(line.skip(0) =~= line);
    }
    while !finished
        invariant
            from <= start <= to <= s@.len(),
            line == s@.subrange(from as int, to as int),
            keep == |piece: Seq<char>| is_segment(piece),
            !finished ==> split(line, '"') == done + split(line.skip(start - from), '"'),
            finished ==> split(line, '"') == done,
            count <= 3,
            count < 3 ==> count == done.filter(keep).len(),
            count == 3 ==> done.filter(keep).len() >= 3,
            count >= 1 ==> from <= first.0 <= first.1 <= to && done.filter(keep)[0]
                == s@.subrange(first.0 as int, first.1 as int),
            count >= 2 ==> from <= second.0 <= second.1 <= to && done.filter(keep)[1]
                == s@.subrange(second.0 as int, second.1 as int),
        decreases to - start + if finished { 0int } else { 1int },
    {
        let ghost rest = line.skip(start - from);
        let end = find(s, start, to, '"');
        proof {
            assert(s@.subrange(start as int, to as int) =~= rest);
            assert(s@.subrange(start as int, end as int) =~= rest.take(end - start));
        }
        let ghost piece = s@.subrange(start as int, end as int);
        let kept = keeps(s, start, end);
        proof {
            reveal(Seq::filter);
            let grown = done.push(piece);
            assert(grown.drop_last() =~= done);
            assert(grown.last() == piece);
            assert(grown.filter(keep) == if keep(piece) {
                done.filter(keep).push(piece)
            } else {
                done.filter(keep)
            });
            if end < to {
                assert(rest.skip(end - start + 1) =~= line.skip(end + 1 - from));
                assert(split(line, '"') =~= grown + split(line.skip(end + 1 - from), '"'));
            } else {
                assert(rest.take(end - start) =~= rest);
                assert(split(line, '"') =~= grown);
            }
            done = grown;
        }
        if kept {
            if count == 0 {
                first = (start, end);
            } else if count == 1 {
                second = (start, end);
            }
            if count < 3 {
                count += 1;
            }
        }
        if end < to {
            start = end + 1;
        } else {
            finished = true;
        }
    }
    if count == 2 {
        Some((to_text(s, first.0, first.1), to_text(s, second.0, second.1)))
    } else {
        None
    }
}

/// Reads the line `s[from..to]`: brings the cursor, the comment and the table
/// from the scan `before` to the scan after that line.
fn read_line(
    s: &[char],
    from: usize,
    to: usize,
    inversed: bool,
    cursor: &mut Cursor,
    comment: &mut String,
    table: &mut TranslationMap,
    Ghost(before): Ghost<Scan>,
) -> (after: Ghost<Scan>)
    requires
        from <= to <= s@.len(),
        old(table).wf(),
        before.cursor == *old(cursor),
        before.comment == old(comment)@,
        old(table)@ == table_of(before.entries),
        old(table).order() == order_of(before.entries),
    ensures
        after@ == scan_line(before, s@.subrange(from as int, to as int), inversed),
        final(table).wf(),
        after@.cursor == *final(cursor),
        after@.comment == final(comment)@,
        final(table)@ == table_of(after@.entries),
        final(table).order() == order_of(after@.entries),
{
    let ghost line = s@.subrange(from as int, to as int);
    if to == from {
        return Ghost(before);
    }
    let opens = to - from >= 2 && s[from] == '/' && (s[from + 1] == '/' || s[from + 1] == '*');
    if opens || *cursor == Cursor::InBlockComment {
        let closes = to - from >= 2 && s[to - 2] == '*' && s[to - 1] == '/';
        append(comment, s, from, to);
        *cursor = if closes {
            Cursor::Idle
        } else {
            Cursor::InBlockComment
        };
        return Ghost(scan_line(before, line, inversed));
    }
    match two_segments(s, from, to) {
        Some((first, second)) => {
            let (source, target) = if inversed {
                (second, first)
            } else {
                (first, second)
            };
            let key = lowercase(source.as_str());
            let mut attached = String::new();
            std::mem::swap(comment, &mut attached);
            *cursor = Cursor::Idle;
            let entry = Translation { comment: attached, source, target };
            let ghost after = scan_line(before, line, inversed);
            proof {
                assert(after.entries == before.entries.push(entry@));
                assert(after.entries.drop_last() =~= before.entries);
            }
            table.insert(key, entry);
            Ghost(after)
        },
        None => Ghost(before),
    }
}

/// A locale's translations as one file holds them.
#[derive(Debug)]
pub struct Localization {
    pub locale: String,
    pub translations: TranslationMap,
}

/// What a `Localization` stands for in contracts.
pub struct LocalizationView {
    pub locale: Seq<char>,
    pub translations: Map<Seq<char>, TranslationView>,
}

impl View for Localization {
    type V = LocalizationView;

    open spec fn view(&self) -> LocalizationView {
        LocalizationView { locale: self.locale@, translations: self.translations@ }
    }
}

impl Clone for Localization {
    fn clone(&self) -> (copy: Self)
        ensures
            self.wf() ==> copy.wf() && copy@ == self@ && copy.translations.order()
                == self.translations.order(),
    {
        Localization { locale: self.locale.clone(), translations: self.translations.clone() }
    }
}

impl Localization {
    /// The translations are a well-formed mapping.
    pub open spec fn wf(&self) -> bool {
        self.translations.wf()
    }

    /// Parses the text of a `.strings` file into the localization of `locale`.
    ///
    /// Every line is read on its own, in file order. No text is refused: a
    /// line that is neither a comment nor an entry is passed over.
    pub fn from_params(locale: &str, content: &str, inversed: bool) -> (parsed: Result<
        Localization,
        Error,
    >)
        ensures
            parsed is Ok,
            parsed->Ok_0.wf(),
            parsed->Ok_0.locale@ == locale@,
            parsed->Ok_0.translations@ == table_of(parsed_entries(content@, inversed)),
            parsed->Ok_0.translations.order() == order_of(parsed_entries(content@, inversed)),
    {
        let chars = to_chars(content);
        let s = chars.as_slice();
        let n = s.len();
        let mut table = TranslationMap::new();
        let mut comment = String::new();
        let mut cursor = Cursor::Idle;
        let mut pos: usize = 0;
        let mut finished = false;
        let ghost mut state = scan_start();
        assert(content@.skip(0) =~= content@);
        while !finished
            invariant
                pos <= n,
                n == s@.len(),
                s@ == content@,
                !finished ==> scan(content@, scan_start(), inversed) == scan(
                    content@.skip(pos as int),
                    state,
                    inversed,
                ),
                finished ==> scan(content@, scan_start(), inversed) == state,
                state.cursor == cursor,
                state.comment == comment@,
                table.wf(),
                table@ == table_of(state.entries),
                table.order() == order_of(state.entries),
            decreases n - pos + if finished { 0int } else { 1int },
        {
            let ghost rest = content@.skip(pos as int);
            let feed = find(s, pos, n, '\n');
            assert(s@.subrange(pos as int, n as int) =~= rest);
            if feed < n {
                let end = if feed > pos && s[feed - 1] == '\r' {
                    feed - 1
                } else {
                    feed
                };
                proof {
                    assert(s@.subrange(pos as int, feed as int) =~= rest.take(feed - pos));
                    assert(s@.subrange(pos as int, end as int) =~= without_cr(
                        rest.take(feed - pos),
                    ));
                    assert(rest.skip(feed - pos + 1) =~= content@.skip(feed + 1));
                }
                let after = read_line(
                    s,
                    pos,
                    end,
                    inversed,
                    &mut cursor,
                    &mut comment,
                    &mut table,
                    Ghost(state),
                );
                proof {
                    state = after@;
                }
                pos = feed + 1;
            } else {
                let after = read_line(
                    s,
                    pos,
                    n,
                    inversed,
                    &mut cursor,
                    &mut comment,
                    &mut table,
                    Ghost(state),
                );
                proof {
                    state = after@;
                }
                finished = true;
            }
        }
        Ok(Localization { locale: locale.to_owned(), translations: table })
    }

    /// The localization that a file's text stands for.
    pub open spec fn reading(locale: Seq<char>, content: Seq<char>, inversed: bool)
        -> LocalizationView {
        LocalizationView {
            locale,
            translations: table_of(parsed_entries(content, inversed)),
        }
    }

    /// Parses the bytes of a `.strings` file into the localization of
    /// `locale`. The encoding is detected and the bytes are decoded before
    /// the text is split into lines. Fails with `Error::Parse` exactly where
    /// the bytes are not text in their encoding.
    pub fn parse(locale: &str, raw: &[u8], inversed: bool) -> (parsed: Result<Localization, Error>)
        ensures
            match parsed {
                Ok(loc) => {
                    &&& decoded(raw@) is Some
                    &&& loc.wf()
                    &&& loc@ == Self::reading(locale@, decoded(raw@)->Some_0, inversed)
                    &&& loc.translations.order() == order_of(
                        parsed_entries(decoded(raw@)->Some_0, inversed),
                    )
                },
                Err(e) => e == Error::Parse && decoded(raw@) is None,
            },
    {
        match decode(raw) {
            Ok(content) => Localization::from_params(locale, content.as_str(), inversed),
            Err(e) => Err(e),
        }
    }

    /// Parses the bytes read from the file at `path` into the localization of
    /// the locale that the path names.
    ///
    /// Fails with `Error::Parse` where the bytes are not text in their
    /// encoding; otherwise with `Error::LocaleResolution` where no segment of
    /// the path names a locale directory.
    pub fn from_file(path: &str, raw: &[u8], inversed: bool) -> (parsed: Result<
        Localization,
        Error,
    >)
        ensures
            match parsed {
                Ok(loc) => {
                    &&& decoded(raw@) is Some
                    &&& path_locale(path@) is Some
                    &&& loc.wf()
                    &&& loc@ == Self::reading(
                        path_locale(path@)->Some_0,
                        decoded(raw@)->Some_0,
                        inversed,
                    )
                    &&& loc.translations.order() == order_of(
                        parsed_entries(decoded(raw@)->Some_0, inversed),
                    )
                },
                Err(e) => if decoded(raw@) is None {
                    e == Error::Parse
                } else {
                    e == Error::LocaleResolution && path_locale(path@) is None
                },
            },
    {
        let content = match decode(raw) {
            Ok(content) => content,
            Err(e) => {
                return Err(e);
            },
        };
        match resolve_path_locale(path) {
            Some(locale) => Localization::from_params(locale, content.as_str(), inversed),
            None => Err(Error::LocaleResolution),
        }
    }

    /// Writes nothing: a localization is never stored by this library, and
    /// every path is accepted.
    pub fn write_to_file(path: &str) -> (written: Result<(), Error>)
        ensures
            written is Ok,
    {
        Ok(())
    }
}

/// The suffix by which a directory's name marks it as a locale directory.
pub open spec fn locale_suffix() -> Seq<char> {
    ".lproj"@
}

/// The locale that a path segment names, if it ends with the suffix.
pub open spec fn segment_locale(segment: Seq<char>) -> Option<Seq<char>> {
    if ends_with(segment, locale_suffix()) {
        Some(segment.take(segment.len() - locale_suffix().len()))
    } else {
        None
    }
}

/// The locale named by the last of `parts` that names one.
pub open spec fn innermost_locale(parts: Seq<Seq<char>>) -> Option<Seq<char>>
    decreases parts.len(),
{
    if parts.len() == 0 {
        None
    } else if segment_locale(parts.last()) is Some {
        segment_locale(parts.last())
    } else {
        innermost_locale(parts.drop_last())
    }
}

/// The locale that a path names: that of its innermost segment, between
/// slashes, which ends with `.lproj`.
pub open spec fn path_locale(path: Seq<char>) -> Option<Seq<char>> {
    innermost_locale(split(path, '/'))
}

/// Finds the locale that a path names, going from the innermost segment
/// outward; `None` if no segment ends with `.lproj`.
pub fn resolve_path_locale(path: &str) -> (locale: Option<&str>)
    ensures
        match locale {
            Some(l) => path_locale(path@) == Some(l@),
            None => path_locale(path@) is None,
        },
{
    let chars = to_chars(path);
    let s = chars.as_slice();
    let suffix = to_chars(".lproj");
    let n = s.len();
    let ghost whole = path@;
    let ghost mut done: Seq<Seq<char>> = Seq::empty();
    let mut best: Option<(usize, usize)> = None;
    let mut start: usize = 0;
    let mut finished = false;
    assert(whole.skip(0) =~= whole);
    while !finished
        invariant
            start <= n,
            n == s@.len(),
            s@ == whole,
            whole == path@,
            suffix@ == locale_suffix(),
            !finished ==> split(whole, '/') == done + split(whole.skip(start as int), '/'),
            finished ==> split(whole, '/') == done,
            match best {
                Some((a, b)) => a <= b <= n && innermost_locale(done) == Some(
                    whole.subrange(a as int, b as int),
                ),
                None => innermost_locale(done) is None,
            },
        decreases n - start + if finished { 0int } else { 1int },
    {
        let ghost rest = whole.skip(start as int);
        let end = find(s, start, n, '/');
        let named = ends(s, start, end, suffix.as_slice());
        proof {
            assert(s@.subrange(start as int, n as int) =~= rest);
            assert(s@.subrange(start as int, end as int) =~= rest.take(end - start));
            let part = s@.subrange(start as int, end as int);
            let grown = done.push(part);
            assert(grown.drop_last() =~= done);
            if named {
                assert(part.take(part.len() - suffix@.len()) =~= whole.subrange(
                    start as int,
                    end - suffix@.len(),
                ));
            }
            if end < n {
                assert(rest.skip(end - start + 1) =~= whole.skip(end + 1));
                assert(split(whole, '/') =~= grown + split(whole.skip(end + 1), '/'));
            } else {
                assert(rest.take(end - start) =~= rest);
                assert(split(whole, '/') =~= grown);
            }
            done = grown;
        }
        if named {
            best = Some((start, end - suffix.len()));
        }
        if end < n {
            start = end + 1;
        } else {
            finished = true;
        }
    }
    match best {
        Some((a, b)) => Some(path.substring_char(a, b)),
        None => None,
    }
}

} // verus!
