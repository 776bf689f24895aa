//! Catalog source files: their format, which of several files counts, and how
//! their entries become a database.

use vstd::prelude::*;
use vstd::utf8::encode_utf8;

use crate::journal::catalog::{
    ascending, bytes_less, decode, lemma_keys_total, lemma_keys_transitive, law_database_round_trip,
    storable, bytes_lt, combine_entries, combined, encode, encode_database, id_of, is_id, key_less,
    key_lt, language_fits, opt_str, parse_id, record_views, same_id, text_of, CatalogError,
    CatalogKey, CatalogRecord, KeyView, RecordView,
};
use crate::text;

verus! {

/// Why a catalog source was refused.
#[derive(Debug, Clone, Copy, PartialEq, Eq, Structural)]
#[allow(inconsistent_fields)]
pub enum SourceError {
    /// A separator names a language of the wrong length.
    InvalidLanguage,
    /// The entry before the given line, or before the end, has no payload.
    NoPayload { line: Option<usize> },
    /// The given line stands before any message ID.
    PayloadBeforeId { line: usize },
}

/// Whether a language's name has a length that is accepted.
pub open spec fn language_ok(language: Seq<char>) -> bool {
    2 <= encode_utf8(language).len() <= 31
}

/// The last position of `c` in `s`, or -1.
pub open spec fn rfind(s: Seq<char>, c: char) -> int
    decreases s.len(),
{
    if s.len() == 0 {
        -1
    } else if s.last() == c {
        s.len() - 1
    } else {
        rfind(s.drop_last(), c)
    }
}

/// The language that a file's name gives: what stands between the last two
/// dots of `NAME.LANGUAGE.catalog`.
pub open spec fn name_language(name: Seq<char>) -> Option<Seq<char>> {
    if !".catalog"@.is_suffix_of(name) {
        None
    } else {
        let stem = name.take(name.len() - ".catalog"@.len());
        let dot = rfind(stem, '.');
        if dot < 0 || !language_ok(stem.skip(dot + 1)) {
            None
        } else {
            Some(stem.skip(dot + 1))
        }
    }
}

/// The language that a source file's name gives.
pub fn file_language(name: &str) -> (r: Option<String>)
    ensures
        text::opt_view(r) == name_language(name@),
{
    if !text::ends_with(name, ".catalog") {
        return None;
    }
    let chars = text::chars_of(name);
    proof {
        reveal_strlit(".catalog");
    }
    let stem_len: usize = chars.len() - 8;
    let ghost stem = name@.take(stem_len as int);
    let mut i: usize = stem_len;
    assert(stem.take(stem_len as int) =~= stem);
    while i > 0 && chars[i - 1] != '.'
        invariant
            chars@ == name@,
            i <= stem_len <= chars@.len(),
            stem == name@.take(stem_len as int),
            rfind(stem, '.') == rfind(stem.take(i as int), '.'),
        decreases i,
    {
        assert(stem.take(i as int).drop_last() =~= stem.take(i - 1));
        i -= 1;
    }
    if i == 0 {
        return None;
    }
    let language = text::substring(&chars, i, stem_len);
    assert(language@ =~= stem.skip(i as int));
    let length = text::byte_len(language.as_str());
    if length < 2 || length > 31 {
        return None;
    }
    Some(language)
}

/// What a separator line says: the message ID, and the language where it
/// differs from the file's.
pub struct Separator {
    pub id: Seq<u8>,
    pub language: Option<Seq<char>>,
}

/// What a line says as a separator: `-- `, 32 hexadecimal digits, and perhaps
/// a blank and a language. Other lines are no separators.
pub open spec fn separator(line: Seq<char>, default_language: Option<Seq<char>>) -> Result<Option<Separator>, SourceError> {
    let rest = line.skip(3);
    let suffix = rest.skip(32);
    let language = text::trimmed(suffix);
    if !"-- "@.is_prefix_of(line) || rest.len() < 32 || !is_id(rest.take(32)) {
        Ok(None)
    } else if suffix.len() > 0 && suffix[0] != ' ' {
        Ok(None)
    } else if language.len() == 0 {
        Ok(Some(Separator { id: id_of(rest.take(32)), language: None }))
    } else if !language_ok(language) {
        Err(SourceError::InvalidLanguage)
    } else if default_language == Some(language) {
        Ok(Some(Separator { id: id_of(rest.take(32)), language: None }))
    } else {
        Ok(Some(Separator { id: id_of(rest.take(32)), language: Some(language) }))
    }
}

/// A separator that was read, by its views.
pub open spec fn separator_view(s: Option<([u8; 16], Option<String>)>) -> Option<Separator> {
    match s {
        Some(found) => Some(Separator { id: found.0@, language: text::opt_view(found.1) }),
        None => None,
    }
}

/// Read a line as a separator.
pub fn parse_separator(line: &str, default_language: Option<&str>) -> (r: Result<Option<([u8; 16], Option<String>)>, SourceError>)
    ensures
        match r {
            Ok(found) => separator(line@, opt_str(default_language)) == Ok::<Option<Separator>, SourceError>(separator_view(found)),
            Err(error) => separator(line@, opt_str(default_language)) == Err::<Option<Separator>, SourceError>(error),
        },
{
    let chars = text::chars_of(line);
    proof {
        reveal_strlit("-- ");
        assert(line@.skip(0) =~= line@);
    }
    if !text::prefix_at(&chars, 0, "-- ") || chars.len() < 35 {
        return Ok(None);
    }
    let ghost rest = line@.skip(3);
    let raw_id = text::substring(&chars, 3, 35);
    assert(raw_id@ =~= rest.take(32));
    let id = match parse_id(raw_id.as_str()) {
        Ok(id) => id,
        Err(_) => return Ok(None),
    };
    if chars.len() > 35 && chars[35] != ' ' {
        assert(rest.skip(32)[0] == chars@[35]);
        return Ok(None);
    }
    let suffix = text::substring(&chars, 35, chars.len());
    proof {
        assert(suffix@ =~= rest.skip(32));
        if suffix@.len() > 0 {
            assert(suffix@[0] == chars@[35]);
        }
    }
    let language = text::trim(suffix.as_str());
    if language.as_str().is_empty() {
        return Ok(Some((id, None)));
    }
    let length = text::byte_len(language.as_str());
    if length < 2 || length > 31 {
        return Err(SourceError::InvalidLanguage);
    }
    if let Some(default) = default_language {
        if text::same(default, language.as_str()) {
            return Ok(Some((id, None)));
        }
    }
    Ok(Some((id, Some(language))))
}

/// What was read of a source so far.
#[verifier::ext_equal]
pub struct SourceState {
    /// Finished entries.
    pub done: Seq<RecordView>,
    /// The message ID of the entry being read.
    pub id: Option<Seq<u8>>,
    /// Its language, where the separator gave one.
    pub language: Option<Seq<char>>,
    /// Its text so far.
    pub payload: Seq<char>,
    /// The last line that counts was empty, or there was none.
    pub blank: bool,
}

/// Nothing read yet.
pub open spec fn source_start() -> SourceState {
    SourceState { done: seq![], id: None, language: None, payload: seq![], blank: true }
}

/// The entry being read, finished.
pub open spec fn current_entry(st: SourceState, default_language: Option<Seq<char>>) -> RecordView {
    let language = match st.language {
        Some(l) => l,
        None => match default_language {
            Some(l) => l,
            None => seq![],
        },
    };
    RecordView { key: KeyView { id: st.id->0, language }, text: st.payload }
}

/// One more line, without its line ending.
///
/// Empty lines and comments are not part of an entry; an empty line shows in
/// the entry where text follows it. A separator counts at the beginning of the
/// source and after an empty line only.
pub open spec fn source_step(st: SourceState, line: Seq<char>, number: int, default_language: Option<Seq<char>>) -> Result<SourceState, SourceError> {
    if line.len() == 0 {
        Ok(SourceState { blank: true, ..st })
    } else if line[0] == '#' || line[0] == ';' {
        Ok(st)
    } else {
        let found = if st.blank {
            separator(line, default_language)
        } else {
            Ok(None)
        };
        match found {
            Err(error) => Err(error),
            Ok(Some(s)) => if st.id is Some && st.payload.len() == 0 {
                Err(SourceError::NoPayload { line: Some(number as usize) })
            } else {
                Ok(SourceState {
                    done: if st.id is Some {
                        st.done.push(current_entry(st, default_language))
                    } else {
                        st.done
                    },
                    id: Some(s.id),
                    language: s.language,
                    payload: if st.id is Some {
                        seq![]
                    } else {
                        st.payload
                    },
                    blank: false,
                })
            },
            Ok(None) => if st.id is None {
                Err(SourceError::PayloadBeforeId { line: number as usize })
            } else {
                Ok(SourceState {
                    payload: if st.blank {
                        st.payload.push('\n') + line.push('\n')
                    } else {
                        st.payload + line.push('\n')
                    },
                    blank: false,
                    ..st
                })
            },
        }
    }
}

/// The first `n` lines.
pub open spec fn source_lines(lines: Seq<Seq<char>>, n: int, default_language: Option<Seq<char>>) -> Result<SourceState, SourceError>
    decreases n,
{
    if n <= 0 {
        Ok(source_start())
    } else {
        match source_lines(lines, n - 1, default_language) {
            Err(error) => Err(error),
            Ok(st) => source_step(st, text::strip_cr(lines[n - 1]), n, default_language),
        }
    }
}

/// The entries of a source.
pub open spec fn source_entries(content: Seq<char>, default_language: Option<Seq<char>>) -> Result<Seq<RecordView>, SourceError> {
    let lines = text::lines(content);
    match source_lines(lines, lines.len() as int, default_language) {
        Err(error) => Err(error),
        Ok(st) => if st.id is None {
            Ok(st.done)
        } else if st.payload.len() == 0 {
            Err(SourceError::NoPayload { line: None })
        } else {
            Ok(st.done.push(current_entry(st, default_language)))
        },
    }
}

proof fn lemma_source_fails(lines: Seq<Seq<char>>, k: int, n: int, default_language: Option<Seq<char>>)
    requires
        0 <= k <= n,
        source_lines(lines, k, default_language) is Err,
    ensures
        source_lines(lines, n, default_language) == source_lines(lines, k, default_language),
    decreases n,
{
    if k < n {
        lemma_source_fails(lines, k, n - 1, default_language);
    }
}

/// An entry's language: its own, else the file's, else the default.
fn entry_language(own: Option<String>, default_language: &Option<String>) -> (r: String)
    ensures
        r@ == (match text::opt_view(own) {
            Some(l) => l,
            None => match text::opt_view(*default_language) {
                Some(l) => l,
                None => Seq::<char>::empty(),
            },
        }),
{
    match own {
        Some(language) => language,
        None => match default_language {
            Some(language) => language.clone(),
            None => String::new(),
        },
    }
}

/// The line without a carriage return at its end.
fn without_cr(line: &str) -> (r: String)
    ensures
        r@ == text::strip_cr(line@),
{
    let chars = text::chars_of(line);
    if chars.len() > 0 && chars[chars.len() - 1] == '\r' {
        let r = text::substring(&chars, 0, chars.len() - 1);
        assert(r@ =~= line@.drop_last());
        r
    } else {
        line.to_owned()
    }
}

fn opt_as_str(s: &Option<String>) -> (r: Option<&str>)
    ensures
        opt_str(r) == text::opt_view(*s),
{
    match s {
        Some(x) => Some(x.as_str()),
        None => None,
    }
}

/// Parse a catalog source file.
pub fn parse_source(file_name: &str, content: &str) -> (r: Result<Vec<CatalogRecord>, SourceError>)
    ensures
        match r {
            Ok(entries) => source_entries(content@, name_language(file_name@)) == Ok::<Seq<RecordView>, SourceError>(record_views(entries@)),
            Err(error) => source_entries(content@, name_language(file_name@)) == Err::<Seq<RecordView>, SourceError>(error),
        },
{
    let default_language = file_language(file_name);
    let ghost default = text::opt_view(default_language);
    let lines = text::lines_of(content);
    let ghost all = text::lines(content@);
    let mut done: Vec<CatalogRecord> = Vec::new();
    let mut current_id: Option<[u8; 16]> = None;
    let mut current_language: Option<String> = None;
    let mut payload = String::new();
    let mut blank = true;
    let mut i: usize = 0;
    assert(record_views(done@) =~= Seq::<RecordView>::empty());
    while i < lines.len()
        invariant
            all == text::views(lines@),
            all == text::lines(content@),
            default == text::opt_view(default_language),
            default == name_language(file_name@),
            i <= lines@.len(),
            source_lines(all, i as int, default) == Ok::<SourceState, SourceError>(SourceState {
                done: record_views(done@),
                id: id_view(current_id),
                language: text::opt_view(current_language),
                payload: payload@,
                blank,
            }),
        decreases lines@.len() - i,
    {
        let ghost st = SourceState {
            done: record_views(done@),
            id: id_view(current_id),
            language: text::opt_view(current_language),
            payload: payload@,
            blank,
        };
        let line = without_cr(lines[i].as_str());
        assert(all[i as int] == lines@[i as int]@);
        let ghost step = source_step(st, line@, i + 1, default);
        assert(source_lines(all, i + 1, default) == step);
        if line.as_str().is_empty() {
            blank = true;
            i += 1;
            continue;
        }
        let first = text::chars_of(line.as_str())[0];
        if first == '#' || first == ';' {
            i += 1;
            continue;
        }
        if blank {
            let found = match parse_separator(line.as_str(), opt_as_str(&default_language)) {
                Ok(found) => found,
                Err(error) => {
                    proof {
                        lemma_source_fails(all, i + 1, all.len() as int, default);
                    }
                    return Err(error);
                },
            };
            if let Some((id, language)) = found {
                if let Some(previous) = current_id {
                    if payload.as_str().is_empty() {
                        proof {
                            lemma_source_fails(all, i + 1, all.len() as int, default);
                        }
                        return Err(SourceError::NoPayload { line: Some(i + 1) });
                    }
                    let ghost before = record_views(done@);
                    let language = entry_language(current_language, &default_language);
                    done.push(CatalogRecord { key: CatalogKey { id: previous, language }, text: payload });
                    assert(record_views(done@) =~= before.push(current_entry(st, default)));
                    payload = String::new();
                }
                current_id = Some(id);
                current_language = language;
                blank = false;
                i += 1;
                continue;
            }
        }
        if current_id.is_none() {
            proof {
                lemma_source_fails(all, i + 1, all.len() as int, default);
            }
            return Err(SourceError::PayloadBeforeId { line: i + 1 });
        }
        if blank {
            payload.push('\n');
        }
        payload.push_str(line.as_str());
        payload.push('\n');
        proof {
            if st.blank {
                assert(payload@ =~= st.payload.push('\n') + line@.push('\n'));
            } else {
                assert(payload@ =~= st.payload + line@.push('\n'));
            }
        }
        blank = false;
        i += 1;
    }
    if let Some(id) = current_id {
        if payload.as_str().is_empty() {
            return Err(SourceError::NoPayload { line: None });
        }
        let ghost before = record_views(done@);
        let language = entry_language(current_language, &default_language);
        done.push(CatalogRecord { key: CatalogKey { id, language }, text: payload });
        assert(record_views(done@) =~= before.push(done@[done@.len() - 1]@));
    }
    Ok(done)
}

/// A message ID by its bytes.
pub open spec fn id_view(id: Option<[u8; 16]>) -> Option<Seq<u8>> {
    match id {
        Some(x) => Some(x@),
        None => None,
    }
}

/// Entries in order with one more. An entry that is there already is combined
/// with the new one.
pub open spec fn merged(records: Seq<RecordView>, record: RecordView) -> Seq<RecordView>
    decreases records.len(),
{
    if records.len() == 0 {
        seq![record]
    } else if records[0].key == record.key {
        seq![RecordView { key: record.key, text: combined(record.text, records[0].text) }] + records.drop_first()
    } else if key_lt(record.key, records[0].key) {
        seq![record] + records
    } else {
        seq![records[0]] + merged(records.drop_first(), record)
    }
}

/// Entries in order with the first `n` of some more.
pub open spec fn merged_all(records: Seq<RecordView>, more: Seq<RecordView>, n: int) -> Seq<RecordView>
    decreases n,
{
    if n <= 0 {
        records
    } else {
        merged(merged_all(records, more, n - 1), more[n - 1])
    }
}

/// Add one entry to entries in order.
pub fn merge_entry(records: &mut Vec<CatalogRecord>, record: CatalogRecord)
    ensures
        record_views(final(records)@) == merged(record_views(old(records)@), record@),
{
    let ghost before = record_views(records@);
    let ghost whole = merged(before, record@);
    let mut i: usize = 0;
    proof {
        assert(before.skip(0) =~= before);
        assert(before.take(0) + whole =~= whole);
    }
    while i < records.len()
        invariant
            before == record_views(records@),
            before == record_views(old(records)@),
            i <= records@.len(),
            whole == merged(before, record@),
            whole == before.take(i as int) + merged(before.skip(i as int), record@),
        decreases records@.len() - i,
    {
        let ghost rest = before.skip(i as int);
        assert(rest[0] == records@[i as int]@);
        assert(rest.drop_first() =~= before.skip(i + 1));
        if same_id(&records[i].key.id, &record.key.id) && text::same(records[i].key.language.as_str(), record.key.language.as_str()) {
            assert(rest[0].key == record@.key);
            let combined_text = combine_entries(record.text.as_str(), records[i].text.as_str());
            let ghost new = RecordView { key: record@.key, text: combined_text@ };
            let replacement = CatalogRecord { key: record.key, text: combined_text };
            records.set(i, replacement);
            proof {
                assert(whole == before.take(i as int) + (seq![new] + before.skip(i + 1)));
                assert(record_views(records@) =~= before.take(i as int) + (seq![new] + before.skip(i + 1)));
            }
            return;
        }
        assert(rest[0].key != record@.key);
        if key_less(&record.key, &records[i].key) {
            let ghost new = record@;
            records.insert(i, record);
            proof {
                assert(whole == before.take(i as int) + (seq![new] + rest));
                assert(record_views(records@) =~= before.take(i as int) + (seq![new] + rest));
            }
            return;
        }
        proof {
            assert(before.take(i + 1) =~= before.take(i as int).push(rest[0]));
            let tail = merged(before.skip(i + 1), record@);
            assert(before.take(i as int) + (seq![rest[0]] + tail) =~= before.take(i + 1) + tail);
        }
        i += 1;
    }
    let ghost new = record@;
    records.push(record);
    proof {
        assert(before.skip(i as int) =~= Seq::<RecordView>::empty());
        assert(before.take(i as int) =~= before);
        assert(record_views(records@) =~= before + seq![new]);
    }
}

/// The entries of the first `n` sources, in order.
pub open spec fn collected(sources: Seq<(Seq<char>, Seq<char>)>, n: int) -> Result<Seq<RecordView>, SourceError>
    decreases n,
{
    if n <= 0 {
        Ok(seq![])
    } else {
        match collected(sources, n - 1) {
            Err(error) => Err(error),
            Ok(records) => match source_entries(sources[n - 1].1, name_language(sources[n - 1].0)) {
                Err(error) => Err(error),
                Ok(more) => Ok(merged_all(records, more, more.len() as int)),
            },
        }
    }
}

/// Sources by their names and contents.
pub open spec fn source_views(sources: Seq<(String, String)>) -> Seq<(Seq<char>, Seq<char>)> {
    sources.map_values(|source: (String, String)| (source.0@, source.1@))
}

proof fn lemma_collect_fails(sources: Seq<(Seq<char>, Seq<char>)>, k: int, n: int)
    requires
        0 <= k <= n,
        collected(sources, k) is Err,
    ensures
        collected(sources, n) == collected(sources, k),
    decreases n,
{
    if k < n {
        lemma_collect_fails(sources, k, n - 1);
    }
}

/// Read sources, given as file names and contents, into entries in order.
fn collect_entries(sources: &Vec<(String, String)>) -> (r: Result<Vec<CatalogRecord>, SourceError>)
    ensures
        match r {
            Ok(records) => collected(source_views(sources@), sources@.len() as int) == Ok::<Seq<RecordView>, SourceError>(record_views(records@)),
            Err(error) => collected(source_views(sources@), sources@.len() as int) == Err::<Seq<RecordView>, SourceError>(error),
        },
{
    let ghost views = source_views(sources@);
    let mut records: Vec<CatalogRecord> = Vec::new();
    let mut i: usize = 0;
    assert(record_views(records@) =~= Seq::<RecordView>::empty());
    while i < sources.len()
        invariant
            views == source_views(sources@),
            i <= sources@.len(),
            collected(views, i as int) == Ok::<Seq<RecordView>, SourceError>(record_views(records@)),
        decreases sources@.len() - i,
    {
        let source = &sources[i];
        assert(views[i as int] == (source.0@, source.1@));
        let mut more = match parse_source(source.0.as_str(), source.1.as_str()) {
            Ok(more) => more,
            Err(error) => {
                proof {
                    lemma_collect_fails(views, i + 1, views.len() as int);
                }
                return Err(error);
            },
        };
        let ghost before = record_views(records@);
        let ghost entries = record_views(more@);
        let ghost mut k: int = 0;
        assert(entries.skip(0) =~= entries);
        while more.len() > 0
            invariant
                0 <= k <= entries.len(),
                record_views(more@) == entries.skip(k),
                record_views(records@) == merged_all(before, entries, k),
            decreases more@.len(),
        {
            let ghost rest = record_views(more@);
            let record = more.remove(0);
            proof {
                assert(rest.len() == entries.len() - k);
                assert(rest[0] == record@);
                assert(rest[0] == entries[k]);
                assert(record_views(more@) =~= rest.drop_first());
                assert(rest.drop_first() =~= entries.skip(k + 1));
            }
            merge_entry(&mut records, record);
            proof {
                k = k + 1;
            }
        }
        assert(entries.skip(k).len() == 0);
        i += 1;
    }
    Ok(records)
}

/// Why a database could not be made from sources.
#[derive(Debug, Clone, Copy, PartialEq, Eq, Structural)]
pub enum UpdateError {
    Source(SourceError),
    Catalog(CatalogError),
}

/// The number of entries in some catalog sources and the database that holds
/// them. Without entries there is no database: its bytes are then empty.
pub fn update_database(sources: &Vec<(String, String)>) -> (r: Result<(usize, Vec<u8>), UpdateError>)
    ensures
        match collected(source_views(sources@), sources@.len() as int) {
            Err(error) => r matches Err(e) && e == UpdateError::Source(error),
            Ok(records) => r matches Ok(made) && made.0 == records.len() && made.1@ == (if records.len() == 0 {
                Seq::<u8>::empty()
            } else {
                encode(records)
            }),
        },
{
    let records = match collect_entries(sources) {
        Ok(records) => records,
        Err(error) => return Err(UpdateError::Source(error)),
    };
    let ghost views = record_views(records@);
    if records.len() == 0 {
        return Ok((0, Vec::new()));
    }
    match encode_database(&records) {
        Ok(bytes) => Ok((records.len(), bytes)),
        Err(error) => {
            proof {
                lemma_collected_fits(source_views(sources@), sources@.len() as int);
                let i = choose|i: int| 0 <= i < records@.len() && !language_fits((#[trigger] records@[i])@);
                assert(views[i] == records@[i]@);
                assert(entry_fits(views[i]));
            }
            Err(UpdateError::Catalog(error))
        },
    }
}

/// Whether an entry has a message ID of the right size and a language that
/// fits in a database.
pub open spec fn entry_fits(record: RecordView) -> bool {
    record.key.id.len() == 16 && language_fits(record)
}

spec fn all_fit(records: Seq<RecordView>) -> bool {
    forall|i: int| 0 <= i < records.len() ==> entry_fits(#[trigger] records[i])
}

spec fn state_fits(st: SourceState) -> bool {
    &&& all_fit(st.done)
    &&& st.id is Some ==> st.id->0.len() == 16
    &&& st.language is Some ==> language_ok(st.language->0)
}

proof fn lemma_empty_fits()
    ensures
        encode_utf8(Seq::<char>::empty()).len() == 0,
{
}

proof fn lemma_lines_fit(lines: Seq<Seq<char>>, n: int, default_language: Option<Seq<char>>)
    requires
        default_language is Some ==> language_ok(default_language->0),
    ensures
        source_lines(lines, n, default_language) matches Ok(st) ==> state_fits(st),
    decreases n,
{
    lemma_empty_fits();
    if n > 0 {
        lemma_lines_fit(lines, n - 1, default_language);
        match source_lines(lines, n - 1, default_language) {
            Err(error) => {},
            Ok(st) => {
                if st.id is Some {
                    assert(entry_fits(current_entry(st, default_language)));
                }
            },
        }
    }
}

proof fn lemma_entries_fit(content: Seq<char>, name: Seq<char>)
    ensures
        source_entries(content, name_language(name)) matches Ok(entries) ==> all_fit(entries),
{
    let lines = text::lines(content);
    lemma_empty_fits();
    lemma_lines_fit(lines, lines.len() as int, name_language(name));
}

proof fn lemma_merged_fits(records: Seq<RecordView>, record: RecordView)
    requires
        all_fit(records),
        entry_fits(record),
    ensures
        all_fit(merged(records, record)),
    decreases records.len(),
{
    if records.len() > 0 {
        assert(entry_fits(records[0]));
        let rest = records.drop_first();
        assert forall|i: int| 0 <= i < rest.len() implies entry_fits(#[trigger] rest[i]) by {
            assert(rest[i] == records[i + 1]);
        }
        if records[0].key == record.key {
            assert(all_fit(merged(records, record)));
        } else if key_lt(record.key, records[0].key) {
            let out = seq![record] + records;
            assert forall|i: int| 0 <= i < out.len() implies entry_fits(#[trigger] out[i]) by {
                if i > 0 {
                    assert(out[i] == records[i - 1]);
                }
            }
        } else {
            lemma_merged_fits(rest, record);
            let tail = merged(rest, record);
            let out = seq![records[0]] + tail;
            assert forall|i: int| 0 <= i < out.len() implies entry_fits(#[trigger] out[i]) by {
                if i > 0 {
                    assert(out[i] == tail[i - 1]);
                }
            }
        }
    }
}

proof fn lemma_merged_all_fits(records: Seq<RecordView>, more: Seq<RecordView>, n: int)
    requires
        all_fit(records),
        all_fit(more),
        n <= more.len(),
    ensures
        all_fit(merged_all(records, more, n)),
    decreases n,
{
    if n > 0 {
        lemma_merged_all_fits(records, more, n - 1);
        assert(entry_fits(more[n - 1]));
        lemma_merged_fits(merged_all(records, more, n - 1), more[n - 1]);
    }
}

/// Every entry that is collected fits in a database.
proof fn lemma_collected_fits(sources: Seq<(Seq<char>, Seq<char>)>, n: int)
    ensures
        collected(sources, n) matches Ok(records) ==> all_fit(records),
    decreases n,
{
    if n > 0 {
        lemma_collected_fits(sources, n - 1);
        match collected(sources, n - 1) {
            Err(error) => {},
            Ok(records) => {
                lemma_entries_fit(sources[n - 1].1, sources[n - 1].0);
                match source_entries(sources[n - 1].1, name_language(sources[n - 1].0)) {
                    Err(error) => {},
                    Ok(more) => {
                        lemma_merged_all_fits(records, more, more.len() as int);
                    },
                }
            },
        }
    }
}

/// Whether every key of `records` comes after `key`.
spec fn all_after(records: Seq<RecordView>, key: KeyView) -> bool {
    forall|i: int| 0 <= i < records.len() ==> key_lt(key, (#[trigger] records[i]).key)
}

proof fn lemma_merged_after(records: Seq<RecordView>, record: RecordView, key: KeyView)
    requires
        all_after(records, key),
        key_lt(key, record.key),
    ensures
        all_after(merged(records, record), key),
    decreases records.len(),
{
    if records.len() > 0 {
        assert(key_lt(key, records[0].key));
        let rest = records.drop_first();
        assert forall|i: int| 0 <= i < rest.len() implies key_lt(key, (#[trigger] rest[i]).key) by {
            assert(rest[i] == records[i + 1]);
        }
        if records[0].key == record.key {
        } else if key_lt(record.key, records[0].key) {
            let out = seq![record] + records;
            assert forall|i: int| 0 <= i < out.len() implies key_lt(key, (#[trigger] out[i]).key) by {
                if i > 0 {
                    assert(out[i] == records[i - 1]);
                }
            }
        } else {
            lemma_merged_after(rest, record, key);
            let tail = merged(rest, record);
            let out = seq![records[0]] + tail;
            assert forall|i: int| 0 <= i < out.len() implies key_lt(key, (#[trigger] out[i]).key) by {
                if i > 0 {
                    assert(out[i] == tail[i - 1]);
                }
            }
        }
    }
}

proof fn lemma_ascending_cons(first: RecordView, rest: Seq<RecordView>)
    requires
        ascending(rest),
        all_after(rest, first.key),
    ensures
        ascending(seq![first] + rest),
{
    let out = seq![first] + rest;
    assert forall|i: int, j: int| 0 <= i < j < out.len() implies key_lt((#[trigger] out[i]).key, (#[trigger] out[j]).key) by {
        assert(out[j] == rest[j - 1]);
        if i > 0 {
            assert(out[i] == rest[i - 1]);
        }
    }
}

proof fn lemma_merged_ascending(records: Seq<RecordView>, record: RecordView)
    requires
        ascending(records),
    ensures
        ascending(merged(records, record)),
    decreases records.len(),
{
    if records.len() > 0 {
        let first = records[0];
        let rest = records.drop_first();
        assert(ascending(rest)) by {
            assert forall|i: int, j: int| 0 <= i < j < rest.len() implies key_lt((#[trigger] rest[i]).key, (#[trigger] rest[j]).key) by {
                assert(rest[i] == records[i + 1] && rest[j] == records[j + 1]);
            }
        }
        assert(all_after(rest, first.key)) by {
            assert forall|i: int| 0 <= i < rest.len() implies key_lt(first.key, (#[trigger] rest[i]).key) by {
                assert(rest[i] == records[i + 1]);
                assert(key_lt(records[0].key, records[i + 1].key));
            }
        }
        if first.key == record.key {
            lemma_ascending_cons(RecordView { key: record.key, text: combined(record.text, first.text) }, rest);
        } else if key_lt(record.key, first.key) {
            assert forall|i: int| 0 <= i < records.len() implies key_lt(record.key, (#[trigger] records[i]).key) by {
                if i > 0 {
                    assert(key_lt(records[0].key, records[i].key));
                    lemma_keys_transitive(record.key, first.key, records[i].key);
                }
            }
            lemma_ascending_cons(record, records);
        } else {
            lemma_keys_total(record.key, first.key);
            lemma_merged_ascending(rest, record);
            lemma_merged_after(rest, record, first.key);
            lemma_ascending_cons(first, merged(rest, record));
        }
    } else {
        assert(merged(records, record) =~= seq![record]);
    }
}

proof fn lemma_merged_all_ascending(records: Seq<RecordView>, more: Seq<RecordView>, n: int)
    requires
        ascending(records),
    ensures
        ascending(merged_all(records, more, n)),
    decreases n,
{
    if n > 0 {
        lemma_merged_all_ascending(records, more, n - 1);
        lemma_merged_ascending(merged_all(records, more, n - 1), more[n - 1]);
    }
}

proof fn lemma_collected_ascending(sources: Seq<(Seq<char>, Seq<char>)>, n: int)
    ensures
        collected(sources, n) matches Ok(records) ==> ascending(records),
    decreases n,
{
    if n > 0 {
        lemma_collected_ascending(sources, n - 1);
        match collected(sources, n - 1) {
            Err(error) => {},
            Ok(records) => {
                match source_entries(sources[n - 1].1, name_language(sources[n - 1].0)) {
                    Err(error) => {},
                    Ok(more) => {
                        lemma_merged_all_ascending(records, more, more.len() as int);
                    },
                }
            },
        }
    }
}

/// A database made from sources, when read, holds exactly the entries of the
/// sources. Left out are texts with a zero byte, which ends a string in the
/// database, and databases that do not fit in memory.
pub proof fn law_sources_round_trip(sources: Seq<(Seq<char>, Seq<char>)>)
    ensures
        collected(sources, sources.len() as int) matches Ok(records) ==> (records.len() > 0 && encode(records).len() <= usize::MAX && (forall|i: int| 0 <= i < records.len() ==> !encode_utf8((#[trigger] records[i]).text).contains(0u8)
            && !encode_utf8(records[i].key.language).contains(0u8)) ==> decode(encode(records)) == Ok::<Seq<RecordView>, CatalogError>(records)),
{
    lemma_collected_fits(sources, sources.len() as int);
    lemma_collected_ascending(sources, sources.len() as int);
    match collected(sources, sources.len() as int) {
        Ok(records) => {
            if records.len() > 0 && encode(records).len() <= usize::MAX && (forall|i: int| 0 <= i < records.len() ==> !encode_utf8((#[trigger] records[i]).text).contains(0u8)
                && !encode_utf8(records[i].key.language).contains(0u8)) {
                assert forall|i: int| 0 <= i < records.len() implies (#[trigger] records[i]).key.id.len() == 16 && language_fits(records[i]) by {
                    assert(entry_fits(records[i]));
                }
                assert(storable(records));
                law_database_round_trip(records);
            }
        },
        Err(error) => {},
    }
}

/// Adding an entry changes the text under its key only: there it is the entry's
/// text, combined with what was there before.
pub proof fn law_merging_changes_one_key(records: Seq<RecordView>, record: RecordView, key: KeyView)
    requires
        ascending(records),
    ensures
        key != record.key ==> text_of(merged(records, record), key) == text_of(records, key),
        text_of(merged(records, record), record.key) == Some(match text_of(records, record.key) {
            Some(t) => combined(record.text, t),
            None => record.text,
        }),
    decreases records.len(),
{
    if records.len() == 0 {
        reveal_with_fuel(text_of, 2);
        assert(seq![record].drop_first() =~= Seq::<RecordView>::empty());
    } else {
        let rest = records.drop_first();
        assert(ascending(rest)) by {
            assert forall|i: int, j: int| 0 <= i < j < rest.len() implies key_lt((#[trigger] rest[i]).key, (#[trigger] rest[j]).key) by {
                assert(rest[i] == records[i + 1] && rest[j] == records[j + 1]);
            }
        }
        if records[0].key == record.key {
            let out = merged(records, record);
            assert(out.drop_first() =~= rest);
        } else if key_lt(record.key, records[0].key) {
            let out = merged(records, record);
            assert(out.drop_first() =~= records);
            assert forall|i: int| 0 <= i < records.len() implies key_lt(record.key, (#[trigger] records[i]).key) by {
                if i > 0 {
                    assert(key_lt(records[0].key, records[i].key));
                    lemma_keys_transitive(record.key, records[0].key, records[i].key);
                }
            }
            lemma_absent(records, record.key);
        } else {
            law_merging_changes_one_key(rest, record, key);
            let tail = merged(rest, record);
            let out = merged(records, record);
            assert(out.drop_first() =~= tail);
        }
    }
}

proof fn lemma_absent(records: Seq<RecordView>, key: KeyView)
    requires
        all_after(records, key),
    ensures
        text_of(records, key) is None,
    decreases records.len(),
{
    if records.len() > 0 {
        let rest = records.drop_first();
        assert forall|i: int| 0 <= i < rest.len() implies key_lt(key, (#[trigger] rest[i]).key) by {
            assert(rest[i] == records[i + 1]);
        }
        assert(key_lt(key, records[0].key));
        lemma_keys_total(key, records[0].key);
        if records[0].key.id == key.id && records[0].key.language == key.language {
            assert(records[0].key == key);
        }
        lemma_absent(rest, key);
    }
}

/// What a directory entry is to the catalog.
#[derive(Debug, Clone, Copy, PartialEq, Eq, Structural)]
pub enum SourceFileKind {
    /// A link to `/dev/null`: hides files of the same name further down.
    Masked,
    /// A file or another link.
    Usable,
    /// Anything else.
    Other,
}

/// One directory entry.
#[derive(Debug)]
pub struct SourceFile {
    pub name: String,
    pub path: String,
    pub kind: SourceFileKind,
}

/// The file chosen for a name; nothing where the name is masked.
pub struct Choice {
    pub name: Seq<char>,
    pub path: Option<Seq<char>>,
}

/// Choices in the order of their names with one more, unless the name has its
/// choice already.
pub open spec fn with_choice(choices: Seq<Choice>, choice: Choice) -> Seq<Choice>
    decreases choices.len(),
{
    if choices.len() == 0 {
        seq![choice]
    } else if choices[0].name == choice.name {
        choices
    } else if bytes_lt(encode_utf8(choice.name), encode_utf8(choices[0].name)) {
        seq![choice] + choices
    } else {
        seq![choices[0]] + with_choice(choices.drop_first(), choice)
    }
}

/// The choices after the first `n` entries of a directory.
pub open spec fn choices_in(start: Seq<Choice>, files: Seq<SourceFile>, n: int) -> Seq<Choice>
    decreases n,
{
    if n <= 0 {
        start
    } else {
        let before = choices_in(start, files, n - 1);
        let file = files[n - 1];
        if !".catalog"@.is_suffix_of(file.name@) || file.kind is Other {
            before
        } else if file.kind is Masked {
            with_choice(before, Choice { name: file.name@, path: None })
        } else {
            with_choice(before, Choice { name: file.name@, path: Some(file.path@) })
        }
    }
}

/// The choices after the first `n` directories. Earlier directories win.
pub open spec fn choices_of(directories: Seq<Vec<SourceFile>>, n: int) -> Seq<Choice>
    decreases n,
{
    if n <= 0 {
        seq![]
    } else {
        choices_in(choices_of(directories, n - 1), directories[n - 1]@, directories[n - 1]@.len() as int)
    }
}

/// The paths of choices that are not masked.
pub open spec fn chosen_paths(choices: Seq<Choice>, n: int) -> Seq<Seq<char>>
    decreases n,
{
    if n <= 0 {
        seq![]
    } else {
        match choices[n - 1].path {
            Some(path) => chosen_paths(choices, n - 1).push(path),
            None => chosen_paths(choices, n - 1),
        }
    }
}

spec fn choice_views(choices: Seq<(String, Option<String>)>) -> Seq<Choice> {
    choices.map_values(|c: (String, Option<String>)| Choice { name: c.0@, path: text::opt_view(c.1) })
}

fn add_choice(choices: &mut Vec<(String, Option<String>)>, name: &str, path: Option<String>)
    ensures
        choice_views(final(choices)@) == with_choice(choice_views(old(choices)@), Choice { name: name@, path: text::opt_view(path) }),
{
    let ghost before = choice_views(choices@);
    let ghost new = Choice { name: name@, path: text::opt_view(path) };
    let ghost whole = with_choice(before, new);
    let mut i: usize = 0;
    proof {
        assert(before.skip(0) =~= before);
        assert(before.take(0) + whole =~= whole);
    }
    while i < choices.len()
        invariant
            before == choice_views(choices@),
            before == choice_views(old(choices)@),
            new == (Choice { name: name@, path: text::opt_view(path) }),
            i <= choices@.len(),
            whole == with_choice(before, new),
            whole == before.take(i as int) + with_choice(before.skip(i as int), new),
        decreases choices@.len() - i,
    {
        let ghost rest = before.skip(i as int);
        assert(rest[0].name == choices@[i as int].0@);
        assert(rest.drop_first() =~= before.skip(i + 1));
        if text::same(choices[i].0.as_str(), name) {
            assert(before.take(i as int) + rest =~= before);
            return;
        }
        if bytes_less(name.as_bytes(), choices[i].0.as_str().as_bytes()) {
            choices.insert(i, (name.to_owned(), path));
            assert(choice_views(choices@) =~= before.take(i as int) + (seq![new] + rest));
            return;
        }
        proof {
            assert(before.take(i + 1) =~= before.take(i as int).push(rest[0]));
            let tail = with_choice(before.skip(i + 1), new);
            assert(before.take(i as int) + (seq![rest[0]] + tail) =~= before.take(i + 1) + tail);
        }
        i += 1;
    }
    choices.push((name.to_owned(), path));
    proof {
        assert(before.skip(i as int) =~= Seq::<Choice>::empty());
        assert(before.take(i as int) =~= before);
        assert(choice_views(choices@) =~= before + seq![new]);
    }
}

/// The catalog files of several directories, in the order of their names. A
/// file hides files of the same name in later directories; a masked one hides
/// them without standing for them.
pub fn source_files(directories: &Vec<Vec<SourceFile>>) -> (r: Vec<String>)
    ensures
        text::views(r@) == chosen_paths(choices_of(directories@, directories@.len() as int), choices_of(directories@, directories@.len() as int).len() as int),
{
    let mut choices: Vec<(String, Option<String>)> = Vec::new();
    let mut d: usize = 0;
    assert(choice_views(choices@) =~= Seq::<Choice>::empty());
    while d < directories.len()
        invariant
            d <= directories@.len(),
            choice_views(choices@) == choices_of(directories@, d as int),
        decreases directories@.len() - d,
    {
        let files = &directories[d];
        let ghost start = choice_views(choices@);
        let mut f: usize = 0;
        while f < files.len()
            invariant
                f <= files@.len(),
                choice_views(choices@) == choices_in(start, files@, f as int),
            decreases files@.len() - f,
        {
            let file = &files[f];
            if text::ends_with(file.name.as_str(), ".catalog") {
                match file.kind {
                    SourceFileKind::Masked => {
                        add_choice(&mut choices, file.name.as_str(), None);
                    },
                    SourceFileKind::Usable => {
                        add_choice(&mut choices, file.name.as_str(), Some(file.path.clone()));
                    },
                    SourceFileKind::Other => {},
                }
            }
            f += 1;
        }
        d += 1;
    }
    let ghost all = choice_views(choices@);
    let mut out: Vec<String> = Vec::new();
    let mut i: usize = 0;
    assert(text::views(out@) =~= Seq::<Seq<char>>::empty());
    while i < choices.len()
        invariant
            all == choice_views(choices@),
            i <= choices@.len(),
            text::views(out@) == chosen_paths(all, i as int),
        decreases choices@.len() - i,
    {
        let ghost before = text::views(out@);
        assert(all[i as int].path == text::opt_view(choices@[i as int].1));
        if let Some(path) = &choices[i].1 {
            out.push(path.clone());
            assert(text::views(out@) =~= before.push(path@));
        }
        i += 1;
    }
    out
}

/// The language of a source is what stands between the last two dots of its
/// name, before `.catalog`; it has two to 31 bytes.
pub proof fn law_which_language_a_file_names(base: Seq<char>, language: Seq<char>, name: Seq<char>)
    requires
        !language.contains('.'),
    ensures
        2 <= encode_utf8(language).len() <= 31 ==> name_language(base.push('.') + language + ".catalog"@) == Some(language),
        !(2 <= encode_utf8(language).len() <= 31) ==> name_language(base.push('.') + language + ".catalog"@) is None,
        name_language(language + ".catalog"@) is None,
        !".catalog"@.is_suffix_of(name) ==> name_language(name) is None,
{
    let stem = base.push('.') + language;
    assert(stem.skip(base.len() as int + 1) =~= language);
    lemma_rfind_is(stem, '.', base.len() as int, language);
    let full = base.push('.') + language + ".catalog"@;
    assert(full.take(full.len() - ".catalog"@.len()) =~= stem);
    assert(".catalog"@ =~= full.subrange(full.len() - ".catalog"@.len(), full.len() as int));
    assert(stem.skip(base.len() as int + 1) =~= language);
    let plain = language + ".catalog"@;
    assert(plain.take(plain.len() - ".catalog"@.len()) =~= language);
    assert(".catalog"@ =~= plain.subrange(plain.len() - ".catalog"@.len(), plain.len() as int));
    lemma_rfind_none(language, '.');
}

proof fn lemma_rfind_is(s: Seq<char>, c: char, at: int, tail: Seq<char>)
    requires
        0 <= at < s.len(),
        s[at] == c,
        tail == s.skip(at + 1),
        !tail.contains(c),
    ensures
        rfind(s, c) == at,
    decreases s.len(),
{
    if at < s.len() - 1 {
        assert(tail.contains(tail[tail.len() - 1]));
        assert(s.last() != c);
        let shorter = s.drop_last();
        let rest = shorter.skip(at + 1);
        assert forall|i: int| 0 <= i < rest.len() implies rest[i] != c by {
            assert(rest[i] == tail[i]);
            assert(tail.contains(tail[i]));
        }
        lemma_rfind_is(shorter, c, at, rest);
    }
}

proof fn lemma_rfind_none(s: Seq<char>, c: char)
    requires
        !s.contains(c),
    ensures
        rfind(s, c) == -1,
    decreases s.len(),
{
    if s.len() > 0 {
        assert(s.contains(s[s.len() - 1]));
        let shorter = s.drop_last();
        assert forall|i: int| 0 <= i < shorter.len() implies shorter[i] != c by {
            assert(s.contains(s[i]));
        }
        lemma_rfind_none(shorter, c);
    }
}

/// What separates entries: two hyphens, a space and an identifier, and a space
/// and a language where it is not the default. A language has two to 31 bytes.
pub proof fn law_what_separates_entries(id: Seq<char>, language: Seq<char>, default_language: Option<Seq<char>>, line: Seq<char>, c: char)
    requires
        id.len() == 32,
        is_id(id),
        language.len() > 0,
        !text::is_white_space(language[0]) && !text::is_white_space(language.last()),
    ensures
        separator("-- "@ + id, default_language) == Ok::<Option<Separator>, SourceError>(Some(Separator { id: id_of(id), language: None })),
        2 <= encode_utf8(language).len() <= 31 ==> separator("-- "@ + id + seq![' '] + language, default_language) == Ok::<Option<Separator>, SourceError>(
            Some(Separator { id: id_of(id), language: if default_language == Some(language) { None } else { Some(language) } }),
        ),
        !(2 <= encode_utf8(language).len() <= 31) ==> separator("-- "@ + id + seq![' '] + language, default_language) == Err::<Option<Separator>, SourceError>(
            SourceError::InvalidLanguage,
        ),
        c != ' ' ==> separator("-- "@ + id + seq![c] + language, default_language) == Ok::<Option<Separator>, SourceError>(None),
        !"-- "@.is_prefix_of(line) ==> separator(line, default_language) == Ok::<Option<Separator>, SourceError>(None),
        line.len() < 35 ==> separator(line, default_language) == Ok::<Option<Separator>, SourceError>(None),
        line.len() >= 35 && !is_id(line.subrange(3, 35)) ==> separator(line, default_language) == Ok::<Option<Separator>, SourceError>(None),
{
    reveal_strlit("-- ");
    let a = "-- "@ + id;
    assert(a.skip(3) =~= id);
    assert(id.take(32) =~= id);
    assert(id.skip(32) =~= Seq::<char>::empty());
    assert("-- "@ =~= a.subrange(0, 3));
    text::law_what_is_trimmed_stays(Seq::empty());
    lemma_separator_parts(id, ' ', language);
    lemma_separator_parts(id, c, language);
    text::law_what_is_white_space(' ');
    let suffix = seq![' '] + language;
    assert(suffix.drop_first() =~= language);
    text::law_what_is_trimmed_stays(language);
    assert(text::trim_start(suffix) == text::trim_start(language));
    assert(text::trimmed(suffix) == language);
    if line.len() >= 35 {
        assert(line.skip(3).take(32) =~= line.subrange(3, 35));
    }
}

proof fn lemma_separator_parts(id: Seq<char>, c: char, language: Seq<char>)
    requires
        id.len() == 32,
    ensures
        ({
            let line = "-- "@ + id + seq![c] + language;
            &&& "-- "@.is_prefix_of(line)
            &&& line.skip(3).take(32) == id
            &&& line.skip(3).skip(32) == seq![c] + language
            &&& line.skip(3).len() >= 33
        }),
{
    reveal_strlit("-- ");
    let line = "-- "@ + id + seq![c] + language;
    assert("-- "@ =~= line.subrange(0, 3));
    assert(line.skip(3).take(32) =~= id);
    assert(line.skip(3).skip(32) =~= seq![c] + language);
}

/// What a line of a source does. An empty line is remembered; comments are
/// passed over; a separator counts after an empty line only, and ends the entry
/// before it; anything else is text of the entry, with the empty line before it.
pub proof fn law_what_a_line_of_a_source_does(st: SourceState, line: Seq<char>, number: int, default_language: Option<Seq<char>>)
    ensures
        ({
            let r = source_step(st, line, number, default_language);
            let found = separator(line, default_language);
            let comment = line.len() > 0 && (line[0] == '#' || line[0] == ';');
            let starts = line.len() > 0 && !comment && st.blank && found matches Ok(Some(_));
            let bad = line.len() > 0 && !comment && st.blank && found is Err;
            let text_line = line.len() > 0 && !comment && (!st.blank || found == Ok::<Option<Separator>, SourceError>(None));
            &&& line.len() == 0 ==> r == Ok::<SourceState, SourceError>(SourceState { blank: true, ..st })
            &&& comment ==> r == Ok::<SourceState, SourceError>(st)
            &&& bad ==> r == Err::<SourceState, SourceError>(found->Err_0)
            &&& starts && st.id is Some && st.payload.len() == 0 ==> r == Err::<SourceState, SourceError>(
                SourceError::NoPayload { line: Some(number as usize) },
            )
            &&& starts && (st.id is None || st.payload.len() > 0) ==> r is Ok && {
                let next = r->Ok_0;
                &&& next.id == Some(found->Ok_0->0.id)
                &&& next.language == found->Ok_0->0.language
                &&& !next.blank
                &&& st.id is Some ==> next.payload.len() == 0 && next.done.len() == st.done.len() + 1 && next.done.drop_last() == st.done && next.done.last().key.id == st.id->0
                    && next.done.last().text == st.payload
                &&& st.id is Some && st.language is Some ==> next.done.last().key.language == st.language->0
                &&& st.id is Some && st.language is None && default_language is Some ==> next.done.last().key.language == default_language->0
                &&& st.id is Some && st.language is None && default_language is None ==> next.done.last().key.language.len() == 0
                &&& st.id is None ==> next.done == st.done && next.payload == st.payload
            }
            &&& text_line && st.id is None ==> r == Err::<SourceState, SourceError>(SourceError::PayloadBeforeId { line: number as usize })
            &&& text_line && st.id is Some ==> r is Ok && {
                let next = r->Ok_0;
                &&& next.done == st.done && next.id == st.id && next.language == st.language && !next.blank
                &&& st.blank ==> next.payload == st.payload + seq!['\n'] + line + seq!['\n']
                &&& !st.blank ==> next.payload == st.payload + line + seq!['\n']
            }
        }),
{
    let found = separator(line, default_language);
    match found {
        Ok(Some(s)) => {
            if st.id is Some {
                let last = current_entry(st, default_language);
                assert(st.done.push(last).drop_last() =~= st.done);
            }
        },
        _ => {},
    }
    assert(st.payload.push('\n') + line.push('\n') =~= st.payload + seq!['\n'] + line + seq!['\n']);
    assert(st.payload + line.push('\n') =~= st.payload + line + seq!['\n']);
}

/// The lines of a source are read in their order, from the state in which
/// nothing was read, without carriage returns at their ends. The first that is
/// refused decides. What is open at the end is the last entry.
pub proof fn law_the_lines_of_a_source_are_read_in_order(lines: Seq<Seq<char>>, n: int, content: Seq<char>, default_language: Option<Seq<char>>)
    requires
        0 <= n < lines.len(),
    ensures
        source_lines(lines, 0, default_language) matches Ok(st) && st.done.len() == 0 && st.id is None && st.payload.len() == 0 && st.blank,
        source_lines(lines, n, default_language) matches Err(e) ==> source_lines(lines, n + 1, default_language) == Err::<SourceState, SourceError>(e),
        source_lines(lines, n, default_language) matches Ok(st) ==> source_lines(lines, n + 1, default_language) == source_step(
            st,
            text::strip_cr(lines[n]),
            n + 1,
            default_language,
        ),
        ({
            let all = text::lines(content);
            let r = source_entries(content, default_language);
            match source_lines(all, all.len() as int, default_language) {
                Err(e) => r == Err::<Seq<RecordView>, SourceError>(e),
                Ok(st) => {
                    &&& st.id is None ==> r == Ok::<Seq<RecordView>, SourceError>(st.done)
                    &&& st.id is Some && st.payload.len() == 0 ==> r == Err::<Seq<RecordView>, SourceError>(SourceError::NoPayload { line: None })
                    &&& st.id is Some && st.payload.len() > 0 ==> r is Ok && {
                        let out = r->Ok_0;
                        &&& out.len() == st.done.len() + 1
                        &&& out.drop_last() == st.done
                        &&& out.last().key.id == st.id->0
                        &&& out.last().text == st.payload
                        &&& st.language is Some ==> out.last().key.language == st.language->0
                        &&& st.language is None && default_language is Some ==> out.last().key.language == default_language->0
                        &&& st.language is None && default_language is None ==> out.last().key.language.len() == 0
                    }
                },
            }
        }),
{
    let all = text::lines(content);
    match source_lines(all, all.len() as int, default_language) {
        Err(e) => {},
        Ok(st) => {
            let last = current_entry(st, default_language);
            assert(st.done.push(last).drop_last() =~= st.done);
        },
    }
}

/// Merged entries are in the order of their keys, each key once.
pub proof fn law_merged_entries_are_in_order(records: Seq<RecordView>, record: RecordView)
    requires
        forall|i: int, j: int| 0 <= i < j < records.len() ==> key_lt((#[trigger] records[i]).key, (#[trigger] records[j]).key),
    ensures
        ({
            let out = merged(records, record);
            &&& forall|i: int, j: int| 0 <= i < j < out.len() ==> key_lt((#[trigger] out[i]).key, (#[trigger] out[j]).key)
            &&& out.len() == records.len() || out.len() == records.len() + 1
        }),
{
    assert(ascending(records));
    lemma_merged_ascending(records, record);
    assert(ascending(merged(records, record)));
    lemma_merged_len(records, record);
}

proof fn lemma_merged_len(records: Seq<RecordView>, record: RecordView)
    ensures
        merged(records, record).len() == records.len() || merged(records, record).len() == records.len() + 1,
    decreases records.len(),
{
    if records.len() > 0 {
        lemma_merged_len(records.drop_first(), record);
    }
}

/// Sources are taken in their order, and the entries of each in theirs. The
/// first source that is refused decides.
pub proof fn law_sources_are_collected_in_order(sources: Seq<(Seq<char>, Seq<char>)>, n: int, records: Seq<RecordView>, more: Seq<RecordView>, k: int)
    requires
        0 <= n < sources.len(),
        0 <= k < more.len(),
    ensures
        collected(sources, 0) == Ok::<Seq<RecordView>, SourceError>(Seq::empty()),
        collected(sources, n) matches Err(e) ==> collected(sources, n + 1) == Err::<Seq<RecordView>, SourceError>(e),
        collected(sources, n) is Ok ==> {
            let read = source_entries(sources[n].1, name_language(sources[n].0));
            &&& read matches Err(e) ==> collected(sources, n + 1) == Err::<Seq<RecordView>, SourceError>(e)
            &&& read matches Ok(entries) ==> collected(sources, n + 1) == Ok::<Seq<RecordView>, SourceError>(
                merged_all(collected(sources, n)->Ok_0, entries, entries.len() as int),
            )
        },
        merged_all(records, more, 0) == records,
        merged_all(records, more, k + 1) == merged(merged_all(records, more, k), more[k]),
{
}

/// A choice is added before the first whose name comes after its own, unless
/// its name has a choice already.
pub proof fn law_a_name_is_chosen_once(choices: Seq<Choice>, choice: Choice) -> (p: int)
    ensures
        0 <= p <= choices.len(),
        forall|i: int| 0 <= i < p ==> (#[trigger] choices[i]).name != choice.name && !bytes_lt(encode_utf8(choice.name), encode_utf8(choices[i].name)),
        p < choices.len() && choices[p].name == choice.name ==> with_choice(choices, choice) == choices,
        p == choices.len() || choices[p].name != choice.name ==> {
            &&& with_choice(choices, choice) == choices.take(p).push(choice) + choices.skip(p)
            &&& p < choices.len() ==> bytes_lt(encode_utf8(choice.name), encode_utf8(choices[p].name))
        },
    decreases choices.len(),
{
    if choices.len() == 0 {
        assert(choices.take(0).push(choice) + choices.skip(0) =~= seq![choice]);
        0
    } else if choices[0].name == choice.name {
        0
    } else if bytes_lt(encode_utf8(choice.name), encode_utf8(choices[0].name)) {
        assert(choices.take(0).push(choice) + choices.skip(0) =~= seq![choice] + choices);
        0
    } else {
        let rest = choices.drop_first();
        let q = law_a_name_is_chosen_once(rest, choice);
        let p = q + 1;
        assert forall|i: int| 0 <= i < p implies (#[trigger] choices[i]).name != choice.name && !bytes_lt(
            encode_utf8(choice.name),
            encode_utf8(choices[i].name),
        ) by {
            if i > 0 {
                assert(choices[i] == rest[i - 1]);
            }
        }
        if q < rest.len() && rest[q].name == choice.name {
            assert(seq![choices[0]] + rest =~= choices);
        } else {
            assert(seq![choices[0]] + (rest.take(q).push(choice) + rest.skip(q)) =~= choices.take(p).push(choice) + choices.skip(p));
        }
        p
    }
}

/// Which files are chosen: those named `*.catalog` that are files or links, in
/// the order in which they are met; masked names stand without a path.
pub proof fn law_which_files_are_chosen(start: Seq<Choice>, files: Seq<SourceFile>, n: int, directories: Seq<Vec<SourceFile>>, d: int)
    requires
        0 <= n < files.len(),
        0 <= d < directories.len(),
    ensures
        choices_in(start, files, 0) == start,
        !".catalog"@.is_suffix_of(files[n].name@) || files[n].kind is Other ==> choices_in(start, files, n + 1) == choices_in(start, files, n),
        ".catalog"@.is_suffix_of(files[n].name@) && files[n].kind is Masked ==> choices_in(start, files, n + 1) == with_choice(
            choices_in(start, files, n),
            Choice { name: files[n].name@, path: None },
        ),
        ".catalog"@.is_suffix_of(files[n].name@) && files[n].kind is Usable ==> choices_in(start, files, n + 1) == with_choice(
            choices_in(start, files, n),
            Choice { name: files[n].name@, path: Some(files[n].path@) },
        ),
        choices_of(directories, 0).len() == 0,
        choices_of(directories, d + 1) == choices_in(choices_of(directories, d), directories[d]@, directories[d]@.len() as int),
{
}

/// The paths of the choices, in their order; masked names have none.
pub proof fn law_masked_names_give_no_path(choices: Seq<Choice>, n: int)
    requires
        0 <= n < choices.len(),
    ensures
        chosen_paths(choices, 0).len() == 0,
        choices[n].path is None ==> chosen_paths(choices, n + 1) == chosen_paths(choices, n),
        choices[n].path is Some ==> chosen_paths(choices, n + 1) == chosen_paths(choices, n).push(choices[n].path->0),
{
}

} // verus!
