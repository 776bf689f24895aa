//! Login session records: their files, the summaries made of them, and the bus
//! paths of sessions, users and seats.

use vstd::prelude::*;
use vstd::utf8::encode_utf8;

use crate::journal::catalog::{bytes_less, bytes_lt, lemma_bytes_total, lemma_bytes_transitive, lemma_utf8_injective};
use crate::names::NameMap;
use crate::paths;
use crate::text;

verus! {

/// Default runtime directory.
pub const RUNTIME_ROOT: &'static str = "/run/rustd";

/// Default root of the runtime directories of users.
pub const USER_RUNTIME_ROOT: &'static str = "/run/user";

/// A login session.
#[derive(Debug)]
pub struct Session {
    pub id: String,
    pub uid: u32,
    pub user: String,
    pub gid: u32,
    pub seat: String,
    pub tty: String,
    pub service: String,
    pub session_type: String,
    pub class: String,
    pub desktop: String,
    pub display: String,
    pub remote: bool,
    pub remote_user: String,
    pub remote_host: String,
    pub leader: u32,
    pub state: String,
    pub locked: bool,
}

/// A login session.
#[verifier::ext_equal]
pub struct SessionView {
    pub id: Seq<char>,
    pub uid: u32,
    pub user: Seq<char>,
    pub gid: u32,
    pub seat: Seq<char>,
    pub tty: Seq<char>,
    pub service: Seq<char>,
    pub session_type: Seq<char>,
    pub class: Seq<char>,
    pub desktop: Seq<char>,
    pub display: Seq<char>,
    pub remote: bool,
    pub remote_user: Seq<char>,
    pub remote_host: Seq<char>,
    pub leader: u32,
    pub state: Seq<char>,
    pub locked: bool,
}

impl View for Session {
    type V = SessionView;

    open spec fn view(&self) -> SessionView {
        SessionView {
            id: self.id@,
            uid: self.uid,
            user: self.user@,
            gid: self.gid,
            seat: self.seat@,
            tty: self.tty@,
            service: self.service@,
            session_type: self.session_type@,
            class: self.class@,
            desktop: self.desktop@,
            display: self.display@,
            remote: self.remote,
            remote_user: self.remote_user@,
            remote_host: self.remote_host@,
            leader: self.leader,
            state: self.state@,
            locked: self.locked,
        }
    }
}

impl Clone for Session {
    fn clone(&self) -> (r: Self)
        ensures
            r == *self,
    {
        Session {
            id: self.id.clone(),
            uid: self.uid,
            user: self.user.clone(),
            gid: self.gid,
            seat: self.seat.clone(),
            tty: self.tty.clone(),
            service: self.service.clone(),
            session_type: self.session_type.clone(),
            class: self.class.clone(),
            desktop: self.desktop.clone(),
            display: self.display.clone(),
            remote: self.remote,
            remote_user: self.remote_user.clone(),
            remote_host: self.remote_host.clone(),
            leader: self.leader,
            state: self.state.clone(),
            locked: self.locked,
        }
    }
}

/// A key and its value.
pub struct Field {
    pub key: Seq<char>,
    pub value: Seq<char>,
}

/// The field that a line holds: what stands before its first equals sign and
/// what stands behind, each without white space around it.
pub open spec fn field_of(line: Seq<char>) -> Option<Field> {
    let eq = text::find(line, '=');
    if eq < line.len() {
        Some(Field { key: text::trimmed(line.take(eq)), value: text::trimmed(line.skip(eq + 1)) })
    } else {
        None
    }
}

/// Values with those of further lines. A later line replaces an earlier one.
pub open spec fn with_lines(values: Map<Seq<char>, Seq<char>>, lines: Seq<Seq<char>>) -> Map<Seq<char>, Seq<char>>
    decreases lines.len(),
{
    if lines.len() == 0 {
        values
    } else {
        with_lines(
            match field_of(lines[0]) {
                Some(field) => values.insert(field.key, field.value),
                None => values,
            },
            lines.drop_first(),
        )
    }
}

/// The values that a record file holds.
pub open spec fn values_in(content: Seq<char>) -> Map<Seq<char>, Seq<char>> {
    with_lines(Map::empty(), text::lines(content))
}

/// The views of named strings.
pub open spec fn value_views(values: Map<Seq<char>, String>) -> Map<Seq<char>, Seq<char>> {
    values.map_values(|v: String| v@)
}

/// Fields in a file.
pub open spec fn rendered(fields: Seq<Field>) -> Seq<char>
    decreases fields.len(),
{
    if fields.len() == 0 {
        Seq::empty()
    } else {
        fields[0].key + "="@ + fields[0].value + "\n"@ + rendered(fields.drop_first())
    }
}

/// The values that a file holds.
pub fn parse(content: &str) -> (r: NameMap<String>)
    ensures
        r.wf(),
        value_views(r@) == values_in(content@),
{
    let lines = text::lines_of(content);
    let ghost all = text::lines(content@);
    let mut values: NameMap<String> = NameMap::new();
    let mut i: usize = 0;
    assert(all.skip(0) =~= all);
    assert(value_views(values@) =~= Map::<Seq<char>, Seq<char>>::empty());
    while i < lines.len()
        invariant
            text::views(lines@) == all,
            i <= lines@.len(),
            values.wf(),
            with_lines(Map::empty(), all) == with_lines(value_views(values@), all.skip(i as int)),
        decreases lines@.len() - i,
    {
        let line = lines[i].as_str();
        let chars = text::chars_of(line);
        let eq = text::find_from(&chars, 0, '=');
        let ghost before = value_views(values@);
        proof {
            assert(all.skip(i as int)[0] == line@);
            assert(all.skip(i as int).drop_first() =~= all.skip(i + 1));
            assert(chars@.skip(0) =~= chars@);
            text::lemma_find(chars@, '=');
        }
        if eq < chars.len() {
            let key = text::trim(text::substring(&chars, 0, eq).as_str());
            let value = text::trim(text::substring(&chars, eq + 1, chars.len()).as_str());
            assert(line@.subrange(0, eq as int) =~= line@.take(eq as int));
            assert(line@.subrange(eq + 1, line@.len() as int) =~= line@.skip(eq + 1));
            let ghost k = key@;
            let ghost v = value@;
            values.insert(key, value);
            assert(value_views(values@) =~= before.insert(k, v));
        }
        i += 1;
    }
    assert(all.skip(i as int) =~= Seq::empty());
    values
}

/// The value of a key, or a default.
pub open spec fn value_or(values: Map<Seq<char>, Seq<char>>, key: Seq<char>, default: Seq<char>) -> Seq<char> {
    if values.dom().contains(key) {
        values[key]
    } else {
        default
    }
}

/// The number under a key, or zero.
pub open spec fn number_or_zero(values: Map<Seq<char>, Seq<char>>, key: Seq<char>) -> u32 {
    if values.dom().contains(key) {
        match text::number_upto(values[key], u32::MAX as nat) {
            Some(n) => n as u32,
            None => 0,
        }
    } else {
        0
    }
}

/// Whether the value of a key is `yes`.
pub open spec fn is_yes(values: Map<Seq<char>, Seq<char>>, key: Seq<char>) -> bool {
    values.dom().contains(key) && values[key] == "yes"@
}

/// The session that the values of a record make.
pub open spec fn session_of(id: Seq<char>, values: Map<Seq<char>, Seq<char>>) -> SessionView {
    SessionView {
        id,
        uid: number_or_zero(values, "UID"@),
        user: value_or(values, "USER"@, ""@),
        gid: number_or_zero(values, "GID"@),
        seat: value_or(values, "SEAT"@, "seat0"@),
        tty: value_or(values, "TTY"@, ""@),
        service: value_or(values, "SERVICE"@, ""@),
        session_type: value_or(values, "TYPE"@, "unspecified"@),
        class: value_or(values, "CLASS"@, "user"@),
        desktop: value_or(values, "DESKTOP"@, ""@),
        display: value_or(values, "DISPLAY"@, ""@),
        remote: is_yes(values, "REMOTE"@),
        remote_user: value_or(values, "REMOTE_USER"@, ""@),
        remote_host: value_or(values, "REMOTE_HOST"@, ""@),
        leader: number_or_zero(values, "LEADER"@),
        state: value_or(values, "STATE"@, "active"@),
        locked: is_yes(values, "LOCKED"@),
    }
}

fn get_or(values: &NameMap<String>, key: &str, default: &str) -> (r: String)
    requires
        values.wf(),
    ensures
        r@ == value_or(value_views(values@), key@, default@),
{
    match values.get(key) {
        Some(value) => value.clone(),
        None => default.to_owned(),
    }
}

fn get_number(values: &NameMap<String>, key: &str) -> (r: u32)
    requires
        values.wf(),
    ensures
        r == number_or_zero(value_views(values@), key@),
{
    match values.get(key) {
        Some(value) => match text::parse_number(value.as_str(), u32::MAX as u64) {
            Some(n) => n as u32,
            None => 0,
        },
        None => 0,
    }
}

fn get_yes(values: &NameMap<String>, key: &str) -> (r: bool)
    requires
        values.wf(),
    ensures
        r == is_yes(value_views(values@), key@),
{
    match values.get(key) {
        Some(value) => text::same(value.as_str(), "yes"),
        None => false,
    }
}

/// A truth value as it is written.
pub open spec fn yes_or_no(b: bool) -> Seq<char> {
    if b {
        "yes"@
    } else {
        "no"@
    }
}

/// The fields of a session's record.
pub open spec fn fields_of(s: SessionView) -> Seq<Field> {
    seq![
        Field { key: "UID"@, value: text::decimal(s.uid as nat) },
        Field { key: "GID"@, value: text::decimal(s.gid as nat) },
        Field { key: "USER"@, value: s.user },
        Field { key: "SEAT"@, value: s.seat },
        Field { key: "TTY"@, value: s.tty },
        Field { key: "SERVICE"@, value: s.service },
        Field { key: "TYPE"@, value: s.session_type },
        Field { key: "CLASS"@, value: s.class },
        Field { key: "DESKTOP"@, value: s.desktop },
        Field { key: "DISPLAY"@, value: s.display },
        Field { key: "REMOTE"@, value: yes_or_no(s.remote) },
        Field { key: "REMOTE_USER"@, value: s.remote_user },
        Field { key: "REMOTE_HOST"@, value: s.remote_host },
        Field { key: "LEADER"@, value: text::decimal(s.leader as nat) },
        Field { key: "STATE"@, value: s.state },
        Field { key: "LOCKED"@, value: yes_or_no(s.locked) },
    ]
}

/// The views of keys and values.
pub open spec fn field_views(fields: Seq<(String, String)>) -> Seq<Field> {
    fields.map_values(|f: (String, String)| Field { key: f.0@, value: f.1@ })
}

fn render(fields: &Vec<(String, String)>) -> (r: String)
    ensures
        r@ == rendered(field_views(fields@)),
{
    let ghost all = field_views(fields@);
    let mut out = String::new();
    let mut i: usize = 0;
    assert(all.skip(0) =~= all);
    assert(out@ + rendered(all) =~= rendered(all));
    while i < fields.len()
        invariant
            all == field_views(fields@),
            i <= fields@.len(),
            rendered(all) == out@ + rendered(all.skip(i as int)),
        decreases fields@.len() - i,
    {
        let ghost before = out@;
        let ghost left = all.skip(i as int);
        out.push_str(fields[i].0.as_str());
        out.push_str("=");
        out.push_str(fields[i].1.as_str());
        out.push_str("\n");
        assert(left.drop_first() =~= all.skip(i + 1));
        assert(left[0] == all[i as int]);
        assert(before + rendered(left) =~= out@ + rendered(all.skip(i + 1)));
        i += 1;
    }
    assert(all.skip(i as int) =~= Seq::empty());
    assert(out@ + Seq::empty() =~= out@);
    out
}

fn yes_no(b: bool) -> (r: String)
    ensures
        r@ == yes_or_no(b),
{
    if b {
        "yes".to_owned()
    } else {
        "no".to_owned()
    }
}

impl Session {
    /// The session that the values of a record make. What is missing or is no
    /// number gets its default.
    pub fn from_map(id: String, values: &NameMap<String>) -> (r: Self)
        requires
            values.wf(),
        ensures
            r@ == session_of(id@, value_views(values@)),
    {
        Session {
            id,
            uid: get_number(values, "UID"),
            user: get_or(values, "USER", ""),
            gid: get_number(values, "GID"),
            seat: get_or(values, "SEAT", "seat0"),
            tty: get_or(values, "TTY", ""),
            service: get_or(values, "SERVICE", ""),
            session_type: get_or(values, "TYPE", "unspecified"),
            class: get_or(values, "CLASS", "user"),
            desktop: get_or(values, "DESKTOP", ""),
            display: get_or(values, "DISPLAY", ""),
            remote: get_yes(values, "REMOTE"),
            remote_user: get_or(values, "REMOTE_USER", ""),
            remote_host: get_or(values, "REMOTE_HOST", ""),
            leader: get_number(values, "LEADER"),
            state: get_or(values, "STATE", "active"),
            locked: get_yes(values, "LOCKED"),
        }
    }

    /// The record of a session.
    pub fn serialize(&self) -> (r: String)
        ensures
            r@ == rendered(fields_of(self@)),
    {
        let mut fields: Vec<(String, String)> = Vec::new();
        fields.push(("UID".to_owned(), text::decimal_of(self.uid as u128)));
        fields.push(("GID".to_owned(), text::decimal_of(self.gid as u128)));
        fields.push(("USER".to_owned(), self.user.clone()));
        fields.push(("SEAT".to_owned(), self.seat.clone()));
        fields.push(("TTY".to_owned(), self.tty.clone()));
        fields.push(("SERVICE".to_owned(), self.service.clone()));
        fields.push(("TYPE".to_owned(), self.session_type.clone()));
        fields.push(("CLASS".to_owned(), self.class.clone()));
        fields.push(("DESKTOP".to_owned(), self.desktop.clone()));
        fields.push(("DISPLAY".to_owned(), self.display.clone()));
        fields.push(("REMOTE".to_owned(), yes_no(self.remote)));
        fields.push(("REMOTE_USER".to_owned(), self.remote_user.clone()));
        fields.push(("REMOTE_HOST".to_owned(), self.remote_host.clone()));
        fields.push(("LEADER".to_owned(), text::decimal_of(self.leader as u128)));
        fields.push(("STATE".to_owned(), self.state.clone()));
        fields.push(("LOCKED".to_owned(), yes_no(self.locked)));
        assert(field_views(fields@) =~= fields_of(self@));
        render(&fields)
    }
}

/// Where the record of a session is kept, below the runtime directory.
pub open spec fn record_path(root: Seq<char>, id: Seq<char>) -> Seq<char> {
    paths::joined(paths::joined(root, "sessions"@), id)
}

/// The file and the text that record a session.
pub fn save(root: &str, session: &Session) -> (r: (String, String))
    ensures
        r.0@ == record_path(root@, session.id@),
        r.1@ == rendered(fields_of(session@)),
{
    let dir = paths::join(root, "sessions");
    (paths::join(dir.as_str(), session.id.as_str()), session.serialize())
}

/// The session of a record file: nothing where there is no such file. A file
/// that cannot be read counts as empty.
pub fn session(id: &str, is_file: bool, content: Option<&str>) -> (r: Option<Session>)
    ensures
        match r {
            Some(session) => is_file && session@ == session_of(
                id@,
                match content {
                    Some(s) => values_in(s@),
                    None => Map::empty(),
                },
            ),
            None => !is_file,
        },
{
    if !is_file {
        return None;
    }
    match content {
        Some(s) => {
            let values = parse(s);
            Some(Session::from_map(id.to_owned(), &values))
        },
        None => {
            let values: NameMap<String> = NameMap::new();
            assert(value_views(values@) =~= Map::<Seq<char>, Seq<char>>::empty());
            Some(Session::from_map(id.to_owned(), &values))
        },
    }
}

/// Whether a text comes back from a record as it went in: it is one line and
/// has no white space around it.
pub open spec fn is_plain(s: Seq<char>) -> bool {
    !s.contains('\n') && text::trimmed(s) == s
}

/// Whether every text of a session comes back from its record.
pub open spec fn is_recordable(s: SessionView) -> bool {
    is_plain(s.user) && is_plain(s.seat) && is_plain(s.tty) && is_plain(s.service) && is_plain(s.session_type)
        && is_plain(s.class) && is_plain(s.desktop) && is_plain(s.display) && is_plain(s.remote_user) && is_plain(
        s.remote_host,
    ) && is_plain(s.state)
}

/// Values with further fields.
pub open spec fn with_fields(values: Map<Seq<char>, Seq<char>>, fields: Seq<Field>) -> Map<Seq<char>, Seq<char>>
    decreases fields.len(),
{
    if fields.len() == 0 {
        values
    } else {
        with_fields(values.insert(fields[0].key, fields[0].value), fields.drop_first())
    }
}

proof fn lemma_trimmed_last(s: Seq<char>)
    requires
        text::trimmed(s) == s,
        s.len() > 0,
    ensures
        !text::is_white_space(s.last()),
{
    lemma_trim_lengths(s);
    let t = text::trim_start(s);
    lemma_trim_lengths(t);
    if text::is_white_space(s[0]) {
        lemma_trim_lengths(s.drop_first());
    } else if text::is_white_space(s.last()) {
        lemma_trim_lengths(s.drop_last());
    }
}

proof fn lemma_trim_lengths(s: Seq<char>)
    ensures
        text::trim_start(s).len() <= s.len(),
        text::trim_end(s).len() <= s.len(),
    decreases s.len(),
{
    if s.len() > 0 {
        lemma_trim_lengths(s.drop_first());
        lemma_trim_lengths(s.drop_last());
    }
}

proof fn lemma_line_reads_back(key: Seq<char>, value: Seq<char>, rest: Seq<char>)
    requires
        is_plain(key),
        is_plain(value),
        key.len() > 0,
        !key.contains('='),
    ensures
        text::lines(key + "="@ + value + "\n"@ + rest) == seq![key + "="@ + value] + text::lines(rest),
        field_of(key + "="@ + value) == Some(Field { key, value }),
{
    reveal_strlit("=");
    reveal_strlit("\n");
    let line = key + "="@ + value;
    let all = key + "="@ + value + "\n"@ + rest;
    let end = line.len() as int;
    assert(all[end] == '\n');
    assert forall|i: int| 0 <= i < end implies #[trigger] all[i] != '\n' by {
        if i < key.len() {
            assert(all[i] == key[i]);
            assert(key.contains(key[i]));
        } else if i == key.len() {
            assert(all[i] == '=');
        } else {
            assert(all[i] == value[i - key.len() - 1]);
            assert(value.contains(value[i - key.len() - 1]));
        }
    }
    text::lemma_find_is(all, '\n', end);
    assert(all.take(end) =~= line);
    assert(all.skip(end + 1) =~= rest);
    if value.len() > 0 {
        lemma_trimmed_last(value);
        assert(line.last() == value.last());
    } else {
        assert(line.last() == '=');
    }
    assert(text::strip_cr(line) == line);
    let eq = key.len() as int;
    assert(line[eq] == '=');
    assert forall|i: int| 0 <= i < eq implies #[trigger] line[i] != '=' by {
        assert(line[i] == key[i]);
        assert(key.contains(key[i]));
    }
    text::lemma_find_is(line, '=', eq);
    assert(line.take(eq) =~= key);
    assert(line.skip(eq + 1) =~= value);
}

/// Whether fields come back from a file.
pub open spec fn readable(fields: Seq<Field>) -> bool {
    forall|i: int|
        0 <= i < fields.len() ==> is_plain((#[trigger] fields[i]).key) && is_plain(fields[i].value) && fields[i].key.len()
            > 0 && !fields[i].key.contains('=')
}

proof fn lemma_fields_read_back(values: Map<Seq<char>, Seq<char>>, fields: Seq<Field>)
    requires
        readable(fields),
    ensures
        with_lines(values, text::lines(rendered(fields))) == with_fields(values, fields),
    decreases fields.len(),
{
    if fields.len() > 0 {
        let rest = fields.drop_first();
        assert forall|i: int| 0 <= i < rest.len() implies is_plain((#[trigger] rest[i]).key) && is_plain(rest[i].value)
            && rest[i].key.len() > 0 && !rest[i].key.contains('=') by {
            assert(rest[i] == fields[i + 1]);
        }
        let first = fields[0];
        assert(is_plain(first.key) && is_plain(first.value) && first.key.len() > 0 && !first.key.contains('='));
        lemma_line_reads_back(first.key, first.value, rendered(rest));
        let lines = text::lines(rendered(fields));
        assert(lines == seq![first.key + "="@ + first.value] + text::lines(rendered(rest)));
        assert(lines.drop_first() =~= text::lines(rendered(rest)));
        lemma_fields_read_back(values.insert(first.key, first.value), rest);
    }
}

proof fn lemma_field_kept(values: Map<Seq<char>, Seq<char>>, fields: Seq<Field>, i: int)
    requires
        0 <= i < fields.len(),
        forall|a: int, b: int| 0 <= a < b < fields.len() ==> (#[trigger] fields[a]).key != (#[trigger] fields[b]).key,
    ensures
        with_fields(values, fields).dom().contains(fields[i].key),
        with_fields(values, fields)[fields[i].key] == fields[i].value,
    decreases fields.len(),
{
    let rest = fields.drop_first();
    let next = values.insert(fields[0].key, fields[0].value);
    if i == 0 {
        lemma_key_untouched(next, rest, fields[0].key);
    } else {
        assert(rest[i - 1] == fields[i]);
        lemma_field_kept(next, rest, i - 1);
    }
}

proof fn lemma_key_untouched(values: Map<Seq<char>, Seq<char>>, fields: Seq<Field>, key: Seq<char>)
    requires
        values.dom().contains(key),
        forall|i: int| 0 <= i < fields.len() ==> (#[trigger] fields[i]).key != key,
    ensures
        with_fields(values, fields).dom().contains(key),
        with_fields(values, fields)[key] == values[key],
    decreases fields.len(),
{
    if fields.len() > 0 {
        let rest = fields.drop_first();
        assert(fields[0].key != key);
        assert forall|i: int| 0 <= i < rest.len() implies (#[trigger] rest[i]).key != key by {
            assert(rest[i] == fields[i + 1]);
        }
        lemma_key_untouched(values.insert(fields[0].key, fields[0].value), rest, key);
    }
}

proof fn lemma_digits_plain(n: nat)
    ensures
        is_plain(text::decimal(n)),
{
    let s = text::decimal(n);
    text::lemma_decimal_reads_back(n);
    assert(text::is_digit(s[0]));
    assert(text::is_digit(s[s.len() - 1]));
    assert forall|i: int| 0 <= i < s.len() implies s[i] != '\n' by {
        assert(text::is_digit(s[i]));
    }
}

proof fn lemma_word_plain(s: Seq<char>)
    requires
        s.len() > 0,
        forall|i: int| 0 <= i < s.len() ==> ('A' <= #[trigger] s[i] <= 'Z') || ('a' <= s[i] <= 'z') || s[i] == '_',
    ensures
        is_plain(s),
        !s.contains('='),
{
    assert(!text::is_white_space(s[0]));
    assert(!text::is_white_space(s[s.len() - 1]));
}

/// A session comes back from its record as it was, provided that its texts can
/// stand in a record at all: each is one line without white space around it.
pub proof fn law_session_reads_back(s: SessionView)
    requires
        is_recordable(s),
    ensures
        session_of(s.id, values_in(rendered(fields_of(s)))) == s,
{
    let fields = fields_of(s);
    lemma_session_keys();
    lemma_digits_plain(s.uid as nat);
    lemma_digits_plain(s.gid as nat);
    lemma_digits_plain(s.leader as nat);
    text::lemma_decimal_reads_back(s.uid as nat);
    text::lemma_decimal_reads_back(s.gid as nat);
    text::lemma_decimal_reads_back(s.leader as nat);
    reveal_strlit("yes");
    reveal_strlit("no");
    lemma_word_plain("yes"@);
    lemma_word_plain("no"@);
    assert("yes"@.len() == 3 && "no"@.len() == 2);
    assert(readable(fields)) by {
        assert forall|i: int| 0 <= i < fields.len() implies is_plain((#[trigger] fields[i]).key) && is_plain(
            fields[i].value,
        ) && fields[i].key.len() > 0 && !fields[i].key.contains('=') by {
            assert(fields[i].key == session_keys()[i]);
        }
    }
    assert forall|a: int, b: int| 0 <= a < b < fields.len() implies (#[trigger] fields[a]).key != (
    #[trigger] fields[b]).key by {
        assert(fields[a].key == session_keys()[a]);
        assert(fields[b].key == session_keys()[b]);
    }
    lemma_fields_read_back(Map::empty(), fields);
    let values = with_fields(Map::empty(), fields);
    assert forall|i: int| 0 <= i < 16 implies values.dom().contains(#[trigger] fields[i].key) && values[fields[i].key]
        == fields[i].value by {
        lemma_field_kept(Map::empty(), fields, i);
    }
    assert(fields[0].key == "UID"@);
    assert(fields[1].key == "GID"@);
    assert(fields[2].key == "USER"@);
    assert(fields[3].key == "SEAT"@);
    assert(fields[4].key == "TTY"@);
    assert(fields[5].key == "SERVICE"@);
    assert(fields[6].key == "TYPE"@);
    assert(fields[7].key == "CLASS"@);
    assert(fields[8].key == "DESKTOP"@);
    assert(fields[9].key == "DISPLAY"@);
    assert(fields[10].key == "REMOTE"@);
    assert(fields[11].key == "REMOTE_USER"@);
    assert(fields[12].key == "REMOTE_HOST"@);
    assert(fields[13].key == "LEADER"@);
    assert(fields[14].key == "STATE"@);
    assert(fields[15].key == "LOCKED"@);
}

/// The keys of a session's record.
pub open spec fn session_keys() -> Seq<Seq<char>> {
    seq![
        "UID"@,
        "GID"@,
        "USER"@,
        "SEAT"@,
        "TTY"@,
        "SERVICE"@,
        "TYPE"@,
        "CLASS"@,
        "DESKTOP"@,
        "DISPLAY"@,
        "REMOTE"@,
        "REMOTE_USER"@,
        "REMOTE_HOST"@,
        "LEADER"@,
        "STATE"@,
        "LOCKED"@,
    ]
}

proof fn lemma_session_keys()
    ensures
        session_keys().len() == 16,
        forall|i: int|
            0 <= i < 16 ==> is_plain(#[trigger] session_keys()[i]) && session_keys()[i].len() > 0
                && !session_keys()[i].contains('='),
        forall|a: int, b: int| 0 <= a < b < 16 ==> #[trigger] session_keys()[a] != #[trigger] session_keys()[b],
{
    let keys = session_keys();
    reveal_strlit("UID");
    reveal_strlit("GID");
    reveal_strlit("USER");
    reveal_strlit("SEAT");
    reveal_strlit("TTY");
    reveal_strlit("SERVICE");
    reveal_strlit("TYPE");
    reveal_strlit("CLASS");
    reveal_strlit("DESKTOP");
    reveal_strlit("DISPLAY");
    reveal_strlit("REMOTE");
    reveal_strlit("REMOTE_USER");
    reveal_strlit("REMOTE_HOST");
    reveal_strlit("LEADER");
    reveal_strlit("STATE");
    reveal_strlit("LOCKED");
    lemma_word_plain("UID"@);
    lemma_word_plain("GID"@);
    lemma_word_plain("USER"@);
    lemma_word_plain("SEAT"@);
    lemma_word_plain("TTY"@);
    lemma_word_plain("SERVICE"@);
    lemma_word_plain("TYPE"@);
    lemma_word_plain("CLASS"@);
    lemma_word_plain("DESKTOP"@);
    lemma_word_plain("DISPLAY"@);
    lemma_word_plain("REMOTE"@);
    lemma_word_plain("REMOTE_USER"@);
    lemma_word_plain("REMOTE_HOST"@);
    lemma_word_plain("LEADER"@);
    lemma_word_plain("STATE"@);
    lemma_word_plain("LOCKED"@);
    assert(keys[0].len() == 3 && keys[0][0] == 'U');
    assert(keys[1].len() == 3 && keys[1][0] == 'G');
    assert(keys[2].len() == 4 && keys[2][0] == 'U');
    assert(keys[3].len() == 4 && keys[3][0] == 'S');
    assert(keys[4].len() == 3 && keys[4][0] == 'T');
    assert(keys[5].len() == 7 && keys[5][0] == 'S');
    assert(keys[6].len() == 4 && keys[6][0] == 'T');
    assert(keys[7].len() == 5 && keys[7][0] == 'C');
    assert(keys[8].len() == 7 && keys[8][0] == 'D' && keys[8][1] == 'E');
    assert(keys[9].len() == 7 && keys[9][0] == 'D' && keys[9][1] == 'I');
    assert(keys[10].len() == 6 && keys[10][0] == 'R');
    assert(keys[11].len() == 11 && keys[11][7] == 'U');
    assert(keys[12].len() == 11 && keys[12][7] == 'H');
    assert(keys[13].len() == 6 && keys[13][0] == 'L' && keys[13][1] == 'E');
    assert(keys[14].len() == 5 && keys[14][0] == 'S');
    assert(keys[15].len() == 6 && keys[15][0] == 'L' && keys[15][1] == 'O');
}

/// Whether an identifier comes after another in byte order.
pub open spec fn id_after(a: Seq<char>, b: Seq<char>) -> bool {
    bytes_lt(encode_utf8(b), encode_utf8(a))
}

/// The views of sessions.
pub open spec fn session_views(sessions: Seq<Session>) -> Seq<SessionView> {
    sessions.map_values(|s: Session| s@)
}

/// A session put in its place, behind those whose identifiers are not after
/// its own.
pub open spec fn placed(sorted: Seq<SessionView>, s: SessionView) -> Seq<SessionView>
    decreases sorted.len(),
{
    if sorted.len() == 0 || !id_after(sorted.last().id, s.id) {
        sorted.push(s)
    } else {
        placed(sorted.drop_last(), s).push(sorted.last())
    }
}

/// Sessions in order of their identifiers.
pub open spec fn by_id(sessions: Seq<SessionView>) -> Seq<SessionView>
    decreases sessions.len(),
{
    if sessions.len() == 0 {
        sessions
    } else {
        placed(by_id(sessions.drop_last()), sessions.last())
    }
}

/// Whether sessions stand in order of their identifiers.
pub open spec fn in_id_order(sessions: Seq<SessionView>) -> bool {
    forall|i: int, j: int|
        0 <= i < j < sessions.len() ==> !id_after((#[trigger] sessions[i]).id, (#[trigger] sessions[j]).id)
}

proof fn lemma_not_after_transitive(a: Seq<char>, b: Seq<char>, c: Seq<char>)
    requires
        !id_after(a, b),
        !id_after(b, c),
    ensures
        !id_after(a, c),
{
    lemma_bytes_total(encode_utf8(a), encode_utf8(b));
    lemma_bytes_total(encode_utf8(b), encode_utf8(c));
    lemma_bytes_total(encode_utf8(a), encode_utf8(c));
    if id_after(a, c) {
        if encode_utf8(a) != encode_utf8(b) && encode_utf8(b) != encode_utf8(c) {
            lemma_bytes_transitive(encode_utf8(a), encode_utf8(b), encode_utf8(c));
        }
    }
}

proof fn lemma_placed(sorted: Seq<SessionView>, s: SessionView)
    ensures
        placed(sorted, s).len() == sorted.len() + 1,
        placed(sorted, s).to_multiset() == sorted.to_multiset().insert(s),
        placed(sorted, s).last() == s || (sorted.len() > 0 && placed(sorted, s).last() == sorted.last()),
        in_id_order(sorted) ==> in_id_order(placed(sorted, s)),
    decreases sorted.len(),
{
    broadcast use vstd::seq_lib::group_to_multiset_ensures;

    let all = placed(sorted, s);
    if sorted.len() == 0 || !id_after(sorted.last().id, s.id) {
        if in_id_order(sorted) {
            assert forall|i: int, j: int| 0 <= i < j < all.len() implies !id_after(
                (#[trigger] all[i]).id,
                (#[trigger] all[j]).id,
            ) by {
                if j == sorted.len() && i < sorted.len() - 1 {
                    assert(!id_after(sorted[i].id, sorted[sorted.len() - 1].id));
                    lemma_not_after_transitive(sorted[i].id, sorted.last().id, s.id);
                }
            }
        }
    } else {
        let front = sorted.drop_last();
        let inner = placed(front, s);
        lemma_placed(front, s);
        assert(sorted =~= front.push(sorted.last()));
        if in_id_order(sorted) {
            assert(in_id_order(front)) by {
                assert forall|i: int, j: int| 0 <= i < j < front.len() implies !id_after(
                    (#[trigger] front[i]).id,
                    (#[trigger] front[j]).id,
                ) by {
                    assert(!id_after(sorted[i].id, sorted[j].id));
                }
            }
            assert(!id_after(inner.last().id, sorted.last().id)) by {
                if inner.last() == s {
                    lemma_bytes_total(encode_utf8(s.id), encode_utf8(sorted.last().id));
                } else {
                    assert(!id_after(sorted[front.len() - 1].id, sorted[sorted.len() - 1].id));
                }
            }
            assert forall|i: int, j: int| 0 <= i < j < all.len() implies !id_after(
                (#[trigger] all[i]).id,
                (#[trigger] all[j]).id,
            ) by {
                if j < inner.len() {
                    assert(!id_after(inner[i].id, inner[j].id));
                } else if i < inner.len() - 1 {
                    assert(!id_after(inner[i].id, inner[inner.len() - 1].id));
                    lemma_not_after_transitive(inner[i].id, inner.last().id, sorted.last().id);
                }
            }
        }
    }
}

/// Putting sessions in order of their identifiers loses none and adds none,
/// and no identifier is after one that follows it.
pub proof fn law_by_id_sorts(sessions: Seq<SessionView>)
    ensures
        in_id_order(by_id(sessions)),
        by_id(sessions).to_multiset() == sessions.to_multiset(),
    decreases sessions.len(),
{
    broadcast use vstd::seq_lib::group_to_multiset_ensures;

    if sessions.len() > 0 {
        let front = sessions.drop_last();
        law_by_id_sorts(front);
        lemma_placed(by_id(front), sessions.last());
        assert(sessions =~= front.push(sessions.last()));
    }
}

/// Put sessions in order of their identifiers.
pub fn sort_sessions(sessions: &Vec<Session>) -> (r: Vec<Session>)
    ensures
        session_views(r@) == by_id(session_views(sessions@)),
{
    let ghost all = session_views(sessions@);
    let mut sorted: Vec<Session> = Vec::new();
    let mut i: usize = 0;
    assert(session_views(sorted@) =~= by_id(all.take(0)));
    while i < sessions.len()
        invariant
            all == session_views(sessions@),
            i <= sessions@.len(),
            session_views(sorted@) == by_id(all.take(i as int)),
        decreases sessions@.len() - i,
    {
        let ghost before = session_views(sorted@);
        let session = sessions[i].clone();
        let ghost s = session@;
        let mut at: usize = sorted.len();
        assert(before.take(at as int) =~= before);
        assert(placed(before, s) =~= placed(before.take(at as int), s) + before.skip(at as int));
        while at > 0 && bytes_less(session.id.as_str().as_bytes(), sorted[at - 1].id.as_str().as_bytes())
            invariant
                session@ == s,
                session_views(sorted@) == before,
                at <= before.len(),
                placed(before, s) == placed(before.take(at as int), s) + before.skip(at as int),
            decreases at,
        {
            let ghost part = before.take(at as int);
            assert(part.drop_last() =~= before.take(at - 1));
            assert(part.last() == sorted@[at - 1]@);
            assert(placed(before.take(at - 1), s).push(part.last()) + before.skip(at as int) =~= placed(
                before.take(at - 1),
                s,
            ) + before.skip(at - 1));
            at -= 1;
        }
        assert(at > 0 ==> before.take(at as int).last() == sorted@[at - 1]@);
        sorted.insert(at, session);
        assert(session_views(sorted@) =~= before.take(at as int).push(s) + before.skip(at as int));
        assert(all.take(i + 1).drop_last() =~= all.take(i as int));
        i += 1;
    }
    assert(all.take(i as int) =~= all);
    sorted
}

/// A summary file: its name and its text.
#[derive(Debug)]
pub struct Summary {
    pub name: String,
    pub text: String,
}

/// A summary file.
#[verifier::ext_equal]
pub struct SummaryView {
    pub name: Seq<char>,
    pub text: Seq<char>,
}

impl View for Summary {
    type V = SummaryView;

    open spec fn view(&self) -> SummaryView {
        SummaryView { name: self.name@, text: self.text@ }
    }
}

/// The identifiers of sessions.
pub open spec fn ids(sessions: Seq<SessionView>) -> Seq<Seq<char>> {
    sessions.map_values(|s: SessionView| s.id)
}

/// The sessions of a user.
pub open spec fn of_user(sessions: Seq<SessionView>, uid: u32) -> Seq<SessionView> {
    sessions.filter(|s: SessionView| s.uid == uid)
}

/// The sessions on a seat.
pub open spec fn on_seat(sessions: Seq<SessionView>, seat: Seq<char>) -> Seq<SessionView> {
    sessions.filter(|s: SessionView| s.seat == seat)
}

/// The summary of a user: who they are by their first session, and all their
/// sessions.
pub open spec fn user_summary(sessions: Seq<SessionView>, uid: u32, runtime_root: Seq<char>) -> SummaryView {
    let own = of_user(sessions, uid);
    let number = text::decimal(uid as nat);
    SummaryView {
        name: number,
        text: rendered(
            seq![
                Field { key: "UID"@, value: number },
                Field { key: "GID"@, value: text::decimal(own[0].gid as nat) },
                Field { key: "USER"@, value: own[0].user },
                Field { key: "STATE"@, value: "active"@ },
                Field { key: "RUNTIME"@, value: paths::joined(runtime_root, number) },
                Field { key: "SESSIONS"@, value: text::joined_by(ids(own), " "@) },
            ],
        ),
    }
}

/// The summary of a seat: its first session is the active one.
pub open spec fn seat_summary(sessions: Seq<SessionView>, seat: Seq<char>) -> SummaryView {
    let own = on_seat(sessions, seat);
    SummaryView {
        name: seat,
        text: rendered(
            seq![
                Field { key: "ID"@, value: seat },
                Field { key: "ACTIVE_SESSION"@, value: own[0].id },
                Field { key: "SESSIONS"@, value: text::joined_by(ids(own), " "@) },
            ],
        ),
    }
}

/// A user put among others in ascending order, once.
pub open spec fn with_user(users: Seq<u32>, uid: u32) -> Seq<u32>
    decreases users.len(),
{
    if users.len() == 0 || users.last() < uid {
        users.push(uid)
    } else if users.last() == uid {
        users
    } else {
        with_user(users.drop_last(), uid).push(users.last())
    }
}

/// The users that have sessions, in ascending order, each once.
pub open spec fn users_of(sessions: Seq<SessionView>) -> Seq<u32>
    decreases sessions.len(),
{
    if sessions.len() == 0 {
        Seq::empty()
    } else {
        with_user(users_of(sessions.drop_last()), sessions.last().uid)
    }
}

/// A seat put among others in byte order, once.
pub open spec fn with_seat(seats: Seq<Seq<char>>, seat: Seq<char>) -> Seq<Seq<char>>
    decreases seats.len(),
{
    if seats.len() == 0 || id_after(seat, seats.last()) {
        seats.push(seat)
    } else if seats.last() == seat {
        seats
    } else {
        with_seat(seats.drop_last(), seat).push(seats.last())
    }
}

/// The seats that have sessions, in byte order, each once.
pub open spec fn seats_of(sessions: Seq<SessionView>) -> Seq<Seq<char>>
    decreases sessions.len(),
{
    if sessions.len() == 0 {
        Seq::empty()
    } else {
        with_seat(seats_of(sessions.drop_last()), sessions.last().seat)
    }
}

/// Whether numbers ascend, none twice.
pub open spec fn users_ascend(users: Seq<u32>) -> bool {
    forall|i: int, j: int| 0 <= i < j < users.len() ==> #[trigger] users[i] < #[trigger] users[j]
}

/// Whether seats ascend in byte order, none twice.
pub open spec fn seats_ascend(seats: Seq<Seq<char>>) -> bool {
    forall|i: int, j: int| 0 <= i < j < seats.len() ==> id_after(#[trigger] seats[j], #[trigger] seats[i])
}

proof fn lemma_with_user(users: Seq<u32>, uid: u32)
    requires
        users_ascend(users),
    ensures
        users_ascend(with_user(users, uid)),
        forall|u: u32| #[trigger] with_user(users, uid).contains(u) <==> users.contains(u) || u == uid,
    decreases users.len(),
{
    let all = with_user(users, uid);
    if users.len() == 0 || users.last() < uid {
        assert(all[users.len() as int] == uid);
        assert forall|u: u32| users.contains(u) implies #[trigger] all.contains(u) by {
            let i = choose|i: int| 0 <= i < users.len() && users[i] == u;
            assert(all[i] == u);
        }
        assert forall|i: int, j: int| 0 <= i < j < all.len() implies #[trigger] all[i] < #[trigger] all[j] by {
            if j == users.len() && i < users.len() - 1 {
                assert(users[i] < users[users.len() - 1]);
            }
        }
    } else if users.last() == uid {
        assert(users[users.len() - 1] == uid);
    } else {
        let front = users.drop_last();
        let inner = with_user(front, uid);
        let last = users.last();
        assert forall|i: int, j: int| 0 <= i < j < front.len() implies #[trigger] front[i] < #[trigger] front[j] by {
            assert(users[i] < users[j]);
        }
        lemma_with_user(front, uid);
        assert forall|u: u32| #[trigger] all.contains(u) <==> users.contains(u) || u == uid by {
            if all.contains(u) {
                let i = choose|i: int| 0 <= i < all.len() && all[i] == u;
                if i < inner.len() {
                    assert(inner[i] == u);
                    assert(inner.contains(u));
                    if front.contains(u) {
                        let k = choose|k: int| 0 <= k < front.len() && front[k] == u;
                        assert(users[k] == u);
                    }
                } else {
                    assert(users[users.len() - 1] == u);
                }
            }
            if users.contains(u) || u == uid {
                if u == last {
                    assert(all[inner.len() as int] == u);
                } else {
                    if users.contains(u) {
                        let k = choose|k: int| 0 <= k < users.len() && users[k] == u;
                        assert(front[k] == u);
                    }
                    assert(inner.contains(u));
                    let i = choose|i: int| 0 <= i < inner.len() && inner[i] == u;
                    assert(all[i] == u);
                }
            }
        }
        assert forall|i: int, j: int| 0 <= i < j < all.len() implies #[trigger] all[i] < #[trigger] all[j] by {
            if j == inner.len() {
                assert(inner.contains(inner[i]));
                if front.contains(inner[i]) {
                    let k = choose|k: int| 0 <= k < front.len() && front[k] == inner[i];
                    assert(users[k] < users[users.len() - 1]);
                }
            }
        }
    }
}

/// The users stand in ascending order, each once, and they are exactly those
/// of the sessions.
pub proof fn law_users_are_those_of_the_sessions(sessions: Seq<SessionView>)
    ensures
        users_ascend(users_of(sessions)),
        forall|uid: u32| #[trigger]
            users_of(sessions).contains(uid) <==> exists|i: int| 0 <= i < sessions.len() && (#[trigger] sessions[i]).uid == uid,
    decreases sessions.len(),
{
    if sessions.len() > 0 {
        let front = sessions.drop_last();
        law_users_are_those_of_the_sessions(front);
        lemma_with_user(users_of(front), sessions.last().uid);
        assert forall|uid: u32| #[trigger]
            users_of(sessions).contains(uid) <==> exists|i: int| 0 <= i < sessions.len() && (#[trigger] sessions[i]).uid == uid by {
            if users_of(front).contains(uid) {
                let i = choose|i: int| 0 <= i < front.len() && (#[trigger] front[i]).uid == uid;
                assert(sessions[i].uid == uid);
            }
            if exists|i: int| 0 <= i < sessions.len() && (#[trigger] sessions[i]).uid == uid {
                let i = choose|i: int| 0 <= i < sessions.len() && (#[trigger] sessions[i]).uid == uid;
                if i < front.len() {
                    assert(front[i].uid == uid);
                    assert(users_of(front).contains(uid));
                }
            }
            assert(sessions[sessions.len() - 1].uid == sessions.last().uid);
        }
    }
}

proof fn lemma_after_transitive(a: Seq<char>, b: Seq<char>, c: Seq<char>)
    requires
        id_after(a, b),
        id_after(b, c),
    ensures
        id_after(a, c),
{
    lemma_bytes_transitive(encode_utf8(c), encode_utf8(b), encode_utf8(a));
}

proof fn lemma_with_seat(seats: Seq<Seq<char>>, seat: Seq<char>)
    requires
        seats_ascend(seats),
    ensures
        seats_ascend(with_seat(seats, seat)),
        forall|s: Seq<char>| #[trigger] with_seat(seats, seat).contains(s) <==> seats.contains(s) || s == seat,
    decreases seats.len(),
{
    let all = with_seat(seats, seat);
    if seats.len() == 0 || id_after(seat, seats.last()) {
        assert(all[seats.len() as int] == seat);
        assert forall|s: Seq<char>| seats.contains(s) implies #[trigger] all.contains(s) by {
            let i = choose|i: int| 0 <= i < seats.len() && seats[i] == s;
            assert(all[i] == s);
        }
        assert forall|i: int, j: int| 0 <= i < j < all.len() implies id_after(#[trigger] all[j], #[trigger] all[i]) by {
            if j == seats.len() {
                if i < seats.len() - 1 {
                    assert(id_after(seats[seats.len() - 1], seats[i]));
                    lemma_after_transitive(seat, seats.last(), seats[i]);
                }
            } else {
                assert(id_after(seats[j], seats[i]));
            }
        }
    } else if seats.last() == seat {
        assert(seats[seats.len() - 1] == seat);
    } else {
        let front = seats.drop_last();
        let inner = with_seat(front, seat);
        let last = seats.last();
        assert forall|i: int, j: int| 0 <= i < j < front.len() implies id_after(
            #[trigger] front[j],
            #[trigger] front[i],
        ) by {
            assert(id_after(seats[j], seats[i]));
        }
        lemma_with_seat(front, seat);
        assert(id_after(last, seat)) by {
            lemma_utf8_injective(last, seat);
            lemma_bytes_total(encode_utf8(last), encode_utf8(seat));
        }
        assert forall|s: Seq<char>| #[trigger] all.contains(s) <==> seats.contains(s) || s == seat by {
            if all.contains(s) {
                let i = choose|i: int| 0 <= i < all.len() && all[i] == s;
                if i < inner.len() {
                    assert(inner[i] == s);
                    assert(inner.contains(s));
                    if front.contains(s) {
                        let k = choose|k: int| 0 <= k < front.len() && front[k] == s;
                        assert(seats[k] == s);
                    }
                } else {
                    assert(seats[seats.len() - 1] == s);
                }
            }
            if seats.contains(s) || s == seat {
                if s == last {
                    assert(all[inner.len() as int] == s);
                } else {
                    if seats.contains(s) {
                        let k = choose|k: int| 0 <= k < seats.len() && seats[k] == s;
                        assert(front[k] == s);
                    }
                    assert(inner.contains(s));
                    let i = choose|i: int| 0 <= i < inner.len() && inner[i] == s;
                    assert(all[i] == s);
                }
            }
        }
        assert forall|i: int, j: int| 0 <= i < j < all.len() implies id_after(#[trigger] all[j], #[trigger] all[i]) by {
            if j == inner.len() {
                assert(inner.contains(inner[i]));
                if front.contains(inner[i]) {
                    let k = choose|k: int| 0 <= k < front.len() && front[k] == inner[i];
                    assert(id_after(seats[seats.len() - 1], seats[k]));
                }
            } else {
                assert(id_after(inner[j], inner[i]));
            }
        }
    }
}

/// The seats stand in byte order, each once, and they are exactly those of the
/// sessions.
pub proof fn law_seats_are_those_of_the_sessions(sessions: Seq<SessionView>)
    ensures
        seats_ascend(seats_of(sessions)),
        forall|seat: Seq<char>| #[trigger]
            seats_of(sessions).contains(seat) <==> exists|i: int| 0 <= i < sessions.len() && (#[trigger] sessions[i]).seat == seat,
    decreases sessions.len(),
{
    if sessions.len() > 0 {
        let front = sessions.drop_last();
        law_seats_are_those_of_the_sessions(front);
        lemma_with_seat(seats_of(front), sessions.last().seat);
        assert forall|seat: Seq<char>| #[trigger]
            seats_of(sessions).contains(seat) <==> exists|i: int| 0 <= i < sessions.len() && (#[trigger] sessions[i]).seat == seat by {
            if seats_of(front).contains(seat) {
                let i = choose|i: int| 0 <= i < front.len() && (#[trigger] front[i]).seat == seat;
                assert(sessions[i].seat == seat);
            }
            if exists|i: int| 0 <= i < sessions.len() && (#[trigger] sessions[i]).seat == seat {
                let i = choose|i: int| 0 <= i < sessions.len() && (#[trigger] sessions[i]).seat == seat;
                if i < front.len() {
                    assert(front[i].seat == seat);
                    assert(seats_of(front).contains(seat));
                }
            }
            assert(sessions[sessions.len() - 1].seat == sessions.last().seat);
        }
    }
}

fn add_user(users: &mut Vec<u32>, uid: u32)
    ensures
        final(users)@ == with_user(old(users)@, uid),
{
    let ghost before = users@;
    let mut at: usize = users.len();
    assert(before.take(at as int) =~= before);
    assert(with_user(before, uid) =~= with_user(before.take(at as int), uid) + before.skip(at as int));
    while at > 0 && users[at - 1] > uid
        invariant
            users@ == before,
            at <= before.len(),
            with_user(before, uid) == with_user(before.take(at as int), uid) + before.skip(at as int),
        decreases at,
    {
        let ghost part = before.take(at as int);
        assert(part.drop_last() =~= before.take(at - 1));
        assert(with_user(before.take(at - 1), uid).push(part.last()) + before.skip(at as int) =~= with_user(
            before.take(at - 1),
            uid,
        ) + before.skip(at - 1));
        at -= 1;
    }
    assert(at > 0 ==> before.take(at as int).last() == before[at - 1]);
    if at > 0 && users[at - 1] == uid {
        assert(before.take(at as int) + before.skip(at as int) =~= before);
        return;
    }
    users.insert(at, uid);
    assert(users@ =~= before.take(at as int).push(uid) + before.skip(at as int));
}

fn add_seat(seats: &mut Vec<String>, seat: &str)
    ensures
        text::views(final(seats)@) == with_seat(text::views(old(seats)@), seat@),
{
    let ghost before = text::views(seats@);
    let mut at: usize = seats.len();
    assert(before.take(at as int) =~= before);
    assert(with_seat(before, seat@) =~= with_seat(before.take(at as int), seat@) + before.skip(at as int));
    while at > 0 && !text::same(seats[at - 1].as_str(), seat) && !bytes_less(
        seats[at - 1].as_str().as_bytes(),
        seat.as_bytes(),
    )
        invariant
            text::views(seats@) == before,
            at <= before.len(),
            with_seat(before, seat@) == with_seat(before.take(at as int), seat@) + before.skip(at as int),
        decreases at,
    {
        let ghost part = before.take(at as int);
        assert(part.drop_last() =~= before.take(at - 1));
        assert(part.last() == seats@[at - 1]@);
        assert(with_seat(before.take(at - 1), seat@).push(part.last()) + before.skip(at as int) =~= with_seat(
            before.take(at - 1),
            seat@,
        ) + before.skip(at - 1));
        at -= 1;
    }
    assert(at > 0 ==> before.take(at as int).last() == seats@[at - 1]@);
    if at > 0 && text::same(seats[at - 1].as_str(), seat) {
        proof {
            lemma_bytes_total(encode_utf8(seat@), encode_utf8(seat@));
        }
        assert(before.take(at as int) + before.skip(at as int) =~= before);
        return;
    }
    seats.insert(at, seat.to_owned());
    assert(text::views(seats@) =~= before.take(at as int).push(seat@) + before.skip(at as int));
}

proof fn lemma_user_has_session(sessions: Seq<SessionView>, k: int)
    requires
        0 <= k < users_of(sessions).len(),
    ensures
        of_user(sessions, users_of(sessions)[k]).len() > 0,
{
    let uid = users_of(sessions)[k];
    law_users_are_those_of_the_sessions(sessions);
    assert(users_of(sessions).contains(uid));
    let i = choose|i: int| 0 <= i < sessions.len() && (#[trigger] sessions[i]).uid == uid;
    sessions.lemma_filter_contains(|s: SessionView| s.uid == uid, i);
}

proof fn lemma_seat_has_session(sessions: Seq<SessionView>, k: int)
    requires
        0 <= k < seats_of(sessions).len(),
    ensures
        on_seat(sessions, seats_of(sessions)[k]).len() > 0,
{
    let seat = seats_of(sessions)[k];
    law_seats_are_those_of_the_sessions(sessions);
    assert(seats_of(sessions).contains(seat));
    let i = choose|i: int| 0 <= i < sessions.len() && (#[trigger] sessions[i]).seat == seat;
    sessions.lemma_filter_contains(|s: SessionView| s.seat == seat, i);
}

/// The views of summaries.
pub open spec fn summary_views(summaries: Seq<Summary>) -> Seq<SummaryView> {
    summaries.map_values(|s: Summary| s@)
}

fn user_text(sessions: &Vec<Session>, uid: u32, runtime_root: &str) -> (r: Summary)
    requires
        of_user(session_views(sessions@), uid).len() > 0,
    ensures
        r@ == user_summary(session_views(sessions@), uid, runtime_root@),
{
    let ghost all = session_views(sessions@);
    let ghost pred = |s: SessionView| s.uid == uid;
    let mut names: Vec<String> = Vec::new();
    let mut first: usize = 0;
    let mut i: usize = 0;
    proof {
        reveal_with_fuel(Seq::filter, 1);
        assert(all.take(0) =~= Seq::empty());
        assert(text::views(names@) =~= ids(of_user(all.take(0), uid)));
    }
    while i < sessions.len()
        invariant
            all == session_views(sessions@),
            pred == (|s: SessionView| s.uid == uid),
            i <= sessions@.len(),
            text::views(names@) == ids(of_user(all.take(i as int), uid)),
            names@.len() > 0 ==> first < i && all[first as int] == of_user(all.take(i as int), uid)[0],
        decreases sessions@.len() - i,
    {
        let ghost before = text::views(names@);
        proof {
            assert(all.take(i + 1) =~= all.take(i as int).push(all[i as int]));
            all.take(i as int).lemma_filter_push(all[i as int], pred);
            assert(before.len() == names@.len());
        }
        if sessions[i].uid == uid {
            if names.len() == 0 {
                first = i;
            }
            names.push(sessions[i].id.clone());
            assert(text::views(names@) =~= before.push(all[i as int].id));
            assert(ids(of_user(all.take(i + 1), uid)) =~= ids(of_user(all.take(i as int), uid)).push(all[i as int].id));
        }
        i += 1;
    }
    assert(all.take(i as int) =~= all);
    assert(text::views(names@).len() == names@.len());
    let number = text::decimal_of(uid as u128);
    let mut fields: Vec<(String, String)> = Vec::new();
    fields.push(("UID".to_owned(), number.clone()));
    fields.push(("GID".to_owned(), text::decimal_of(sessions[first].gid as u128)));
    fields.push(("USER".to_owned(), sessions[first].user.clone()));
    fields.push(("STATE".to_owned(), "active".to_owned()));
    fields.push(("RUNTIME".to_owned(), paths::join(runtime_root, number.as_str())));
    fields.push(("SESSIONS".to_owned(), text::join_by(&names, " ")));
    let text = render(&fields);
    assert(field_views(fields@) =~= seq![
        Field { key: "UID"@, value: number@ },
        Field { key: "GID"@, value: text::decimal(of_user(all, uid)[0].gid as nat) },
        Field { key: "USER"@, value: of_user(all, uid)[0].user },
        Field { key: "STATE"@, value: "active"@ },
        Field { key: "RUNTIME"@, value: paths::joined(runtime_root@, number@) },
        Field { key: "SESSIONS"@, value: text::joined_by(ids(of_user(all, uid)), " "@) },
    ]);
    Summary { name: number, text }
}

fn seat_text(sessions: &Vec<Session>, seat: &str) -> (r: Summary)
    requires
        on_seat(session_views(sessions@), seat@).len() > 0,
    ensures
        r@ == seat_summary(session_views(sessions@), seat@),
{
    let ghost all = session_views(sessions@);
    let ghost pred = |s: SessionView| s.seat == seat@;
    let mut names: Vec<String> = Vec::new();
    let mut i: usize = 0;
    proof {
        reveal_with_fuel(Seq::filter, 1);
        assert(all.take(0) =~= Seq::empty());
        assert(text::views(names@) =~= ids(on_seat(all.take(0), seat@)));
    }
    while i < sessions.len()
        invariant
            all == session_views(sessions@),
            pred == (|s: SessionView| s.seat == seat@),
            i <= sessions@.len(),
            text::views(names@) == ids(on_seat(all.take(i as int), seat@)),
        decreases sessions@.len() - i,
    {
        let ghost before = text::views(names@);
        proof {
            assert(all.take(i + 1) =~= all.take(i as int).push(all[i as int]));
            all.take(i as int).lemma_filter_push(all[i as int], pred);
        }
        if text::same(sessions[i].seat.as_str(), seat) {
            names.push(sessions[i].id.clone());
            assert(text::views(names@) =~= before.push(all[i as int].id));
            assert(ids(on_seat(all.take(i + 1), seat@)) =~= ids(on_seat(all.take(i as int), seat@)).push(
                all[i as int].id,
            ));
        }
        i += 1;
    }
    assert(all.take(i as int) =~= all);
    assert(text::views(names@).len() == names@.len());
    assert(names@[0]@ == ids(on_seat(all, seat@))[0]) by {
        assert(text::views(names@)[0] == names@[0]@);
    }
    let mut fields: Vec<(String, String)> = Vec::new();
    fields.push(("ID".to_owned(), seat.to_owned()));
    fields.push(("ACTIVE_SESSION".to_owned(), names[0].clone()));
    fields.push(("SESSIONS".to_owned(), text::join_by(&names, " ")));
    let text = render(&fields);
    assert(field_views(fields@) =~= seq![
        Field { key: "ID"@, value: seat@ },
        Field { key: "ACTIVE_SESSION"@, value: on_seat(all, seat@)[0].id },
        Field { key: "SESSIONS"@, value: text::joined_by(ids(on_seat(all, seat@)), " "@) },
    ]);
    Summary { name: seat.to_owned(), text }
}

/// The summaries of users and of seats that sessions make. Sessions come in
/// order of their identifiers.
pub fn rebuild_summaries(sessions: &Vec<Session>, runtime_root: &str) -> (r: (Vec<Summary>, Vec<Summary>))
    ensures
        ({
            let all = session_views(sessions@);
            &&& summary_views(r.0@) == users_of(all).map_values(|uid: u32| user_summary(all, uid, runtime_root@))
            &&& summary_views(r.1@) == seats_of(all).map_values(|seat: Seq<char>| seat_summary(all, seat))
        }),
{
    let ghost all = session_views(sessions@);
    let mut users: Vec<u32> = Vec::new();
    let mut seats: Vec<String> = Vec::new();
    let mut i: usize = 0;
    assert(all.take(0) =~= Seq::empty());
    assert(text::views(seats@) =~= seats_of(all.take(0)));
    while i < sessions.len()
        invariant
            all == session_views(sessions@),
            i <= sessions@.len(),
            users@ == users_of(all.take(i as int)),
            text::views(seats@) == seats_of(all.take(i as int)),
        decreases sessions@.len() - i,
    {
        assert(all.take(i + 1).drop_last() =~= all.take(i as int));
        add_user(&mut users, sessions[i].uid);
        add_seat(&mut seats, sessions[i].seat.as_str());
        i += 1;
    }
    assert(all.take(i as int) =~= all);
    let mut user_summaries: Vec<Summary> = Vec::new();
    let mut u: usize = 0;
    while u < users.len()
        invariant
            all == session_views(sessions@),
            users@ == users_of(all),
            u <= users@.len(),
            user_summaries@.len() == u,
            forall|k: int|
                0 <= k < u ==> (#[trigger] user_summaries@[k])@ == user_summary(all, users_of(all)[k], runtime_root@),
        decreases users@.len() - u,
    {
        proof {
            lemma_user_has_session(all, u as int);
        }
        user_summaries.push(user_text(sessions, users[u], runtime_root));
        u += 1;
    }
    let mut seat_summaries: Vec<Summary> = Vec::new();
    let mut t: usize = 0;
    assert(text::views(seats@).len() == seats@.len());
    while t < seats.len()
        invariant
            all == session_views(sessions@),
            text::views(seats@) == seats_of(all),
            t <= seats@.len(),
            seat_summaries@.len() == t,
            forall|k: int| 0 <= k < t ==> (#[trigger] seat_summaries@[k])@ == seat_summary(all, seats_of(all)[k]),
        decreases seats@.len() - t,
    {
        proof {
            assert(text::views(seats@)[t as int] == seats@[t as int]@);
            lemma_seat_has_session(all, t as int);
        }
        seat_summaries.push(seat_text(sessions, seats[t].as_str()));
        t += 1;
    }
    assert(summary_views(user_summaries@) =~= users_of(all).map_values(
        |uid: u32| user_summary(all, uid, runtime_root@),
    ));
    assert(summary_views(seat_summaries@) =~= seats_of(all).map_values(|seat: Seq<char>| seat_summary(all, seat)));
    (user_summaries, seat_summaries)
}

/// What the file system says of a path that is to be a private directory.
#[derive(Debug, Clone, Copy, PartialEq, Eq, Structural)]
pub enum PathKind {
    Missing,
    Directory,
    /// A link, or no directory.
    Unsafe,
}

/// What to do about the runtime directory of a user.
#[derive(Debug, Clone, Copy, PartialEq, Eq, Structural)]
pub enum DirectoryStep {
    Create,
    Use,
    Refuse,
}

/// What to do about the runtime directory of a user. A link is never followed.
pub fn directory_step(kind: PathKind) -> (r: DirectoryStep)
    ensures
        r == match kind {
            PathKind::Missing => DirectoryStep::Create,
            PathKind::Directory => DirectoryStep::Use,
            PathKind::Unsafe => DirectoryStep::Refuse,
        },
{
    match kind {
        PathKind::Missing => DirectoryStep::Create,
        PathKind::Directory => DirectoryStep::Use,
        PathKind::Unsafe => DirectoryStep::Refuse,
    }
}

/// What to do about the owner of a runtime directory.
#[derive(Debug, Clone, Copy, PartialEq, Eq, Structural)]
pub enum OwnerStep {
    /// Give it to the user.
    Change,
    /// It is the user's own already.
    Keep,
    /// Only the superuser can give it to someone else.
    Refuse,
}

/// What to do about the owner of a runtime directory, by who runs this.
pub fn owner_step(effective_uid: u32, effective_gid: u32, uid: u32, gid: u32) -> (r: OwnerStep)
    ensures
        r == if effective_uid == 0 {
            OwnerStep::Change
        } else if uid != effective_uid || gid != effective_gid {
            OwnerStep::Refuse
        } else {
            OwnerStep::Keep
        },
{
    if effective_uid == 0 {
        OwnerStep::Change
    } else if uid != effective_uid || gid != effective_gid {
        OwnerStep::Refuse
    } else {
        OwnerStep::Keep
    }
}

/// The runtime directory of a user.
pub fn user_runtime_path(runtime_root: &str, uid: u32) -> (r: String)
    ensures
        r@ == paths::joined(runtime_root@, text::decimal(uid as nat)),
{
    paths::join(runtime_root, text::decimal_of(uid as u128).as_str())
}

/// Whether a byte stands for itself in a bus path.
pub open spec fn is_path_byte(b: u8) -> bool {
    (48 <= b <= 57) || (65 <= b <= 90) || (97 <= b <= 122) || b == 95
}

/// A hexadecimal digit in lower case.
pub open spec fn hex_digit(v: int) -> char {
    if v < 10 {
        (48 + v) as char
    } else {
        (87 + v) as char
    }
}

/// A byte as it stands in a bus path.
pub open spec fn escaped_byte(b: u8) -> Seq<char> {
    if is_path_byte(b) {
        seq![b as char]
    } else {
        seq!['_', hex_digit(b as int / 16), hex_digit(b as int % 16)]
    }
}

/// Bytes as they stand in a bus path.
pub open spec fn escaped(bytes: Seq<u8>) -> Seq<char>
    decreases bytes.len(),
{
    if bytes.len() == 0 {
        Seq::empty()
    } else {
        escaped(bytes.drop_last()) + escaped_byte(bytes.last())
    }
}

fn hex(v: u8) -> (r: char)
    requires
        v < 16,
    ensures
        r == hex_digit(v as int),
{
    if v < 10 {
        (48 + v) as char
    } else {
        (87 + v) as char
    }
}

/// A value as a component of a bus path: letters, digits and underscores stand
/// for themselves, any other byte for an underscore and its two hexadecimal
/// digits.
pub fn object_component(value: &str) -> (r: String)
    ensures
        r@ == escaped(encode_utf8(value@)),
{
    let bytes = value.as_bytes();
    let ghost all = encode_utf8(value@);
    let mut out = String::new();
    let mut i: usize = 0;
    assert(out@ =~= escaped(all.take(0)));
    while i < bytes.len()
        invariant
            bytes@ == all,
            i <= bytes@.len(),
            out@ == escaped(all.take(i as int)),
        decreases bytes@.len() - i,
    {
        let b: u8 = bytes[i];
        let ghost before = out@;
        assert(all.take(i + 1).drop_last() =~= all.take(i as int));
        if (48 <= b && b <= 57) || (65 <= b && b <= 90) || (97 <= b && b <= 122) || b == 95 {
            out.push(b as char);
        } else {
            out.push('_');
            out.push(hex(b / 16));
            out.push(hex(b % 16));
        }
        assert(out@ =~= before + escaped_byte(b));
        i += 1;
    }
    assert(all.take(i as int) =~= all);
    out
}

/// A component of a bus path holds nothing but ASCII letters, digits and
/// underscores, whatever the value.
pub proof fn law_component_is_a_path_element(bytes: Seq<u8>, i: int)
    requires
        0 <= i < escaped(bytes).len(),
    ensures
        text::is_digit(escaped(bytes)[i]) || ('a' <= escaped(bytes)[i] <= 'z') || ('A' <= escaped(bytes)[i] <= 'Z')
            || escaped(bytes)[i] == '_',
    decreases bytes.len(),
{
    if bytes.len() > 0 {
        let front = escaped(bytes.drop_last());
        if i < front.len() {
            law_component_is_a_path_element(bytes.drop_last(), i);
        } else {
            assert(escaped(bytes)[i] == escaped_byte(bytes.last())[i - front.len()]);
        }
    }
}

/// The bus path of a session.
pub fn session_path(id: &str) -> (r: String)
    ensures
        r@ == "/io/rustd/Login1/session/"@ + escaped(encode_utf8(id@)),
{
    let mut out = "/io/rustd/Login1/session/".to_owned();
    out.push_str(object_component(id).as_str());
    out
}

/// The bus path of a user.
pub fn user_path(uid: u32) -> (r: String)
    ensures
        r@ == "/io/rustd/Login1/user/"@ + text::decimal(uid as nat),
{
    let mut out = "/io/rustd/Login1/user/".to_owned();
    out.push_str(text::decimal_of(uid as u128).as_str());
    out
}

/// The bus path of a seat.
pub fn seat_path(id: &str) -> (r: String)
    ensures
        r@ == "/io/rustd/Login1/seat/"@ + escaped(encode_utf8(id@)),
{
    let mut out = "/io/rustd/Login1/seat/".to_owned();
    out.push_str(object_component(id).as_str());
    out
}

/// A field is what stands before the first equals sign and all that stands
/// behind it, without white space at their ends.
pub proof fn law_a_field_ends_at_the_first_equals_sign(key: Seq<char>, value: Seq<char>)
    requires
        !key.contains('='),
    ensures
        field_of(key + seq!['='] + value) is Some,
        field_of(key + seq!['='] + value)->0.key == text::trimmed(key),
        field_of(key + seq!['='] + value)->0.value == text::trimmed(value),
        field_of(key) is None,
{
    let line = key + seq!['='] + value;
    let n = key.len() as int;
    assert(line[n] == '=');
    assert forall|i: int| 0 <= i < n implies #[trigger] line[i] != '=' by {
        assert(key.contains(key[i]));
        assert(line[i] == key[i]);
    }
    text::lemma_find_is(line, '=', n);
    assert(line.take(n) =~= key);
    assert(line.skip(n + 1) =~= value);
    assert forall|i: int| 0 <= i < n implies #[trigger] key[i] != '=' by {
        assert(key.contains(key[i]));
    }
    text::lemma_find_is(key, '=', n);
}

/// Of two lines with one key the later counts; lines without a field are passed
/// over.
pub proof fn law_the_last_line_of_a_key_counts(values: Map<Seq<char>, Seq<char>>, lines: Seq<Seq<char>>, line: Seq<char>)
    ensures
        with_lines(values, Seq::empty()) == values,
        field_of(line) is None ==> with_lines(values, lines.push(line)) == with_lines(values, lines),
        field_of(line) matches Some(f) ==> with_lines(values, lines.push(line)) == with_lines(values, lines).insert(f.key, f.value),
        values_in(Seq::empty()) == Map::<Seq<char>, Seq<char>>::empty(),
    decreases lines.len(),
{
    let more = lines.push(line);
    if lines.len() == 0 {
        assert(more.drop_first() =~= Seq::<Seq<char>>::empty());
        reveal_with_fuel(with_lines, 2);
    } else {
        let next = match field_of(lines[0]) {
            Some(field) => values.insert(field.key, field.value),
            None => values,
        };
        law_the_last_line_of_a_key_counts(next, lines.drop_first(), line);
        assert(more.drop_first() =~= lines.drop_first().push(line));
        assert(more[0] == lines[0]);
    }
    text::law_how_lines_end(Seq::empty(), Seq::empty());
    assert(text::lines(Seq::empty()) =~= Seq::<Seq<char>>::empty());
}

/// Fields are written one to a line, in their order.
pub proof fn law_fields_are_written_one_to_a_line(fields: Seq<Field>, more: Seq<Field>, field: Field)
    ensures
        rendered(Seq::empty()).len() == 0,
        rendered(seq![field]) == field.key + seq!['='] + field.value + seq!['\n'],
        rendered(fields + more) == rendered(fields) + rendered(more),
    decreases fields.len(),
{
    reveal_strlit("=");
    reveal_strlit("\n");
    assert("="@ =~= seq!['=']);
    assert("\n"@ =~= seq!['\n']);
    let one = seq![field];
    assert(one.drop_first() =~= Seq::<Field>::empty());
    assert(rendered(Seq::<Field>::empty()) =~= Seq::<char>::empty());
    assert(rendered(one) =~= field.key + seq!['='] + field.value + seq!['\n']);
    let all = fields + more;
    if fields.len() == 0 {
        assert(all =~= more);
        assert(rendered(fields) + rendered(more) =~= rendered(more));
    } else {
        let rest = fields.drop_first();
        law_fields_are_written_one_to_a_line(rest, more, field);
        assert(all.drop_first() =~= rest + more);
        assert(all[0] == fields[0]);
        assert(rendered(all) =~= rendered(fields) + rendered(more));
    }
}

/// What a record says of a session, and what holds where it says nothing.
pub proof fn law_what_a_record_says(id: Seq<char>, values: Map<Seq<char>, Seq<char>>)
    ensures
        session_of(id, values).id == id,
        values.dom().contains("USER"@) ==> session_of(id, values).user == values["USER"@],
        !values.dom().contains("USER"@) ==> session_of(id, values).user == ""@,
        values.dom().contains("SEAT"@) ==> session_of(id, values).seat == values["SEAT"@],
        !values.dom().contains("SEAT"@) ==> session_of(id, values).seat == "seat0"@,
        values.dom().contains("TTY"@) ==> session_of(id, values).tty == values["TTY"@],
        !values.dom().contains("TTY"@) ==> session_of(id, values).tty == ""@,
        values.dom().contains("SERVICE"@) ==> session_of(id, values).service == values["SERVICE"@],
        !values.dom().contains("SERVICE"@) ==> session_of(id, values).service == ""@,
        values.dom().contains("TYPE"@) ==> session_of(id, values).session_type == values["TYPE"@],
        !values.dom().contains("TYPE"@) ==> session_of(id, values).session_type == "unspecified"@,
        values.dom().contains("CLASS"@) ==> session_of(id, values).class == values["CLASS"@],
        !values.dom().contains("CLASS"@) ==> session_of(id, values).class == "user"@,
        values.dom().contains("DESKTOP"@) ==> session_of(id, values).desktop == values["DESKTOP"@],
        !values.dom().contains("DESKTOP"@) ==> session_of(id, values).desktop == ""@,
        values.dom().contains("DISPLAY"@) ==> session_of(id, values).display == values["DISPLAY"@],
        !values.dom().contains("DISPLAY"@) ==> session_of(id, values).display == ""@,
        values.dom().contains("REMOTE_USER"@) ==> session_of(id, values).remote_user == values["REMOTE_USER"@],
        !values.dom().contains("REMOTE_USER"@) ==> session_of(id, values).remote_user == ""@,
        values.dom().contains("REMOTE_HOST"@) ==> session_of(id, values).remote_host == values["REMOTE_HOST"@],
        !values.dom().contains("REMOTE_HOST"@) ==> session_of(id, values).remote_host == ""@,
        values.dom().contains("STATE"@) ==> session_of(id, values).state == values["STATE"@],
        !values.dom().contains("STATE"@) ==> session_of(id, values).state == "active"@,
        values.dom().contains("UID"@) && text::number_upto(values["UID"@], u32::MAX as nat) is Some ==> session_of(id, values).uid == text::number_upto(values["UID"@], u32::MAX as nat)->0,
        !values.dom().contains("UID"@) || text::number_upto(values["UID"@], u32::MAX as nat) is None ==> session_of(id, values).uid == 0,
        values.dom().contains("GID"@) && text::number_upto(values["GID"@], u32::MAX as nat) is Some ==> session_of(id, values).gid == text::number_upto(values["GID"@], u32::MAX as nat)->0,
        !values.dom().contains("GID"@) || text::number_upto(values["GID"@], u32::MAX as nat) is None ==> session_of(id, values).gid == 0,
        values.dom().contains("LEADER"@) && text::number_upto(values["LEADER"@], u32::MAX as nat) is Some ==> session_of(id, values).leader == text::number_upto(values["LEADER"@], u32::MAX as nat)->0,
        !values.dom().contains("LEADER"@) || text::number_upto(values["LEADER"@], u32::MAX as nat) is None ==> session_of(id, values).leader == 0,
        session_of(id, values).remote <==> values.dom().contains("REMOTE"@) && values["REMOTE"@] == "yes"@,
        session_of(id, values).locked <==> values.dom().contains("LOCKED"@) && values["LOCKED"@] == "yes"@,
{
}

/// What is recorded of a session, in this order.
pub proof fn law_what_is_recorded(s: SessionView, session: Session)
    ensures
        fields_of(s).len() == 16,
        fields_of(s)[0].key == "UID"@ && fields_of(s)[0].value == text::decimal(s.uid as nat),
        fields_of(s)[1].key == "GID"@ && fields_of(s)[1].value == text::decimal(s.gid as nat),
        fields_of(s)[2].key == "USER"@ && fields_of(s)[2].value == s.user,
        fields_of(s)[3].key == "SEAT"@ && fields_of(s)[3].value == s.seat,
        fields_of(s)[4].key == "TTY"@ && fields_of(s)[4].value == s.tty,
        fields_of(s)[5].key == "SERVICE"@ && fields_of(s)[5].value == s.service,
        fields_of(s)[6].key == "TYPE"@ && fields_of(s)[6].value == s.session_type,
        fields_of(s)[7].key == "CLASS"@ && fields_of(s)[7].value == s.class,
        fields_of(s)[8].key == "DESKTOP"@ && fields_of(s)[8].value == s.desktop,
        fields_of(s)[9].key == "DISPLAY"@ && fields_of(s)[9].value == s.display,
        fields_of(s)[10].key == "REMOTE"@ && fields_of(s)[10].value == (if s.remote { "yes"@ } else { "no"@ }),
        fields_of(s)[11].key == "REMOTE_USER"@ && fields_of(s)[11].value == s.remote_user,
        fields_of(s)[12].key == "REMOTE_HOST"@ && fields_of(s)[12].value == s.remote_host,
        fields_of(s)[13].key == "LEADER"@ && fields_of(s)[13].value == text::decimal(s.leader as nat),
        fields_of(s)[14].key == "STATE"@ && fields_of(s)[14].value == s.state,
        fields_of(s)[15].key == "LOCKED"@ && fields_of(s)[15].value == (if s.locked { "yes"@ } else { "no"@ }),
        session@.id == session.id@,
        session@.user == session.user@,
        session@.seat == session.seat@,
        session@.tty == session.tty@,
        session@.service == session.service@,
        session@.session_type == session.session_type@,
        session@.class == session.class@,
        session@.desktop == session.desktop@,
        session@.display == session.display@,
        session@.remote_user == session.remote_user@,
        session@.remote_host == session.remote_host@,
        session@.state == session.state@,
        session@.uid == session.uid,
        session@.gid == session.gid,
        session@.remote == session.remote,
        session@.leader == session.leader,
        session@.locked == session.locked,
{
}

/// Where sessions are recorded: each under its identifier, in the directory for
/// them.
pub proof fn law_where_sessions_are_recorded(root: Seq<char>, id: Seq<char>)
    ensures
        record_path(root, id) == paths::joined(paths::joined(root, "sessions"@), id),
        RUNTIME_ROOT@ == "/run/rustd"@,
        USER_RUNTIME_ROOT@ == "/run/user"@,
{
}

/// Identifiers are ordered by their bytes; sessions with one identifier keep
/// their order.
pub proof fn law_equal_sessions_keep_their_order(sessions: Seq<SessionView>, id: Seq<char>, a: Seq<char>, b: Seq<char>)
    ensures
        id_after(a, b) <==> bytes_lt(encode_utf8(b), encode_utf8(a)),
        by_id(sessions).filter(|s: SessionView| s.id == id) == sessions.filter(|s: SessionView| s.id == id),
    decreases sessions.len(),
{
    let keep = |s: SessionView| s.id == id;
    if sessions.len() > 0 {
        let front = sessions.drop_last();
        law_equal_sessions_keep_their_order(front, id, a, b);
        lemma_placed_keeps_order(by_id(front), sessions.last(), id);
        assert(sessions =~= front.push(sessions.last()));
        front.lemma_filter_push(sessions.last(), keep);
        by_id(front).lemma_filter_push(sessions.last(), keep);
    }
}

proof fn lemma_placed_keeps_order(sorted: Seq<SessionView>, s: SessionView, id: Seq<char>)
    ensures
        placed(sorted, s).filter(|x: SessionView| x.id == id) == sorted.push(s).filter(|x: SessionView| x.id == id),
    decreases sorted.len(),
{
    let keep = |x: SessionView| x.id == id;
    if sorted.len() > 0 && id_after(sorted.last().id, s.id) {
        let front = sorted.drop_last();
        let last = sorted.last();
        lemma_placed_keeps_order(front, s, id);
        lemma_bytes_total(encode_utf8(s.id), encode_utf8(last.id));
        assert(last.id != s.id);
        placed(front, s).lemma_filter_push(last, keep);
        sorted.lemma_filter_push(s, keep);
        front.lemma_filter_push(s, keep);
        assert(sorted =~= front.push(last));
        front.lemma_filter_push(last, keep);
    }
}

/// What is summed up of a user: the numbers, name and runtime directory, and
/// the identifiers of the user's sessions in their order.
pub proof fn law_what_is_summed_up_of_a_user(sessions: Seq<SessionView>, uid: u32, runtime_root: Seq<char>, before: Seq<SessionView>, first: SessionView, after: Seq<SessionView>)
    requires
        sessions == before.push(first) + after,
        first.uid == uid,
        forall|i: int| 0 <= i < before.len() ==> (#[trigger] before[i]).uid != uid,
    ensures
        ({
            let own = sessions.filter(|s: SessionView| s.uid == uid);
            let number = text::decimal(uid as nat);
            let line = |key: Seq<char>, value: Seq<char>| key + seq!['='] + value + seq!['\n'];
            let summary = user_summary(sessions, uid, runtime_root);
            &&& summary.name == number
            &&& summary.text == line("UID"@, number) + line("GID"@, text::decimal(first.gid as nat)) + line("USER"@, first.user) + line("STATE"@, "active"@)
                + line("RUNTIME"@, paths::joined(runtime_root, number)) + line("SESSIONS"@, text::joined_by(own.map_values(|s: SessionView| s.id), seq![' ']))
        }),
{
    let keep = |s: SessionView| s.uid == uid;
    lemma_first_kept(before, first, after, keep);
    reveal_strlit(" ");
    assert(" "@ =~= seq![' ']);
    let own = of_user(sessions, uid);
    let number = text::decimal(uid as nat);
    let a = Field { key: "UID"@, value: number };
    let b = Field { key: "GID"@, value: text::decimal(own[0].gid as nat) };
    let c = Field { key: "USER"@, value: own[0].user };
    let d = Field { key: "STATE"@, value: "active"@ };
    let e = Field { key: "RUNTIME"@, value: paths::joined(runtime_root, number) };
    let f = Field { key: "SESSIONS"@, value: text::joined_by(ids(own), " "@) };
    lemma_six_lines(a, b, c, d, e, f);
}

proof fn lemma_six_lines(a: Field, b: Field, c: Field, d: Field, e: Field, f: Field)
    ensures
        ({
            let line = |x: Field| x.key + seq!['='] + x.value + seq!['\n'];
            rendered(seq![a, b, c, d, e, f]) == line(a) + line(b) + line(c) + line(d) + line(e) + line(f)
        }),
{
    lemma_three_lines(a, b, c);
    lemma_three_lines(d, e, f);
    law_fields_are_written_one_to_a_line(seq![a, b, c], seq![d, e, f], a);
    assert(seq![a, b, c] + seq![d, e, f] =~= seq![a, b, c, d, e, f]);
    let line = |x: Field| x.key + seq!['='] + x.value + seq!['\n'];
    assert((line(a) + line(b) + line(c)) + (line(d) + line(e) + line(f)) =~= line(a) + line(b) + line(c) + line(d) + line(e) + line(f));
}

proof fn lemma_three_lines(a: Field, b: Field, c: Field)
    ensures
        ({
            let line = |x: Field| x.key + seq!['='] + x.value + seq!['\n'];
            rendered(seq![a, b, c]) == line(a) + line(b) + line(c)
        }),
{
    law_fields_are_written_one_to_a_line(seq![a], seq![b], a);
    law_fields_are_written_one_to_a_line(seq![a, b], seq![c], b);
    law_fields_are_written_one_to_a_line(seq![a, b], seq![c], c);
    assert(seq![a] + seq![b] =~= seq![a, b]);
    assert(seq![a, b] + seq![c] =~= seq![a, b, c]);
}

proof fn lemma_first_kept(before: Seq<SessionView>, first: SessionView, after: Seq<SessionView>, keep: spec_fn(SessionView) -> bool)
    requires
        keep(first),
        forall|i: int| 0 <= i < before.len() ==> !keep(#[trigger] before[i]),
    ensures
        (before.push(first) + after).filter(keep).len() > 0,
        (before.push(first) + after).filter(keep)[0] == first,
{
    Seq::filter_distributes_over_add(before.push(first), after, keep);
    before.lemma_filter_push(first, keep);
    lemma_none_kept(before, keep);
}

proof fn lemma_none_kept(s: Seq<SessionView>, keep: spec_fn(SessionView) -> bool)
    requires
        forall|i: int| 0 <= i < s.len() ==> !keep(#[trigger] s[i]),
    ensures
        s.filter(keep).len() == 0,
    decreases s.len(),
{
    if s.len() > 0 {
        let front = s.drop_last();
        assert forall|i: int| 0 <= i < front.len() implies !keep(#[trigger] front[i]) by {
            assert(front[i] == s[i]);
        }
        lemma_none_kept(front, keep);
        assert(s =~= front.push(s.last()));
        front.lemma_filter_push(s.last(), keep);
    } else {
        reveal(Seq::filter);
    }
}

/// What is summed up of a seat: its name, its first session, and the
/// identifiers of its sessions in their order.
pub proof fn law_what_is_summed_up_of_a_seat(sessions: Seq<SessionView>, seat: Seq<char>, before: Seq<SessionView>, first: SessionView, after: Seq<SessionView>)
    requires
        sessions == before.push(first) + after,
        first.seat == seat,
        forall|i: int| 0 <= i < before.len() ==> (#[trigger] before[i]).seat != seat,
    ensures
        ({
            let own = sessions.filter(|s: SessionView| s.seat == seat);
            let line = |key: Seq<char>, value: Seq<char>| key + seq!['='] + value + seq!['\n'];
            let summary = seat_summary(sessions, seat);
            &&& summary.name == seat
            &&& summary.text == line("ID"@, seat) + line("ACTIVE_SESSION"@, first.id) + line("SESSIONS"@, text::joined_by(own.map_values(|s: SessionView| s.id), seq![' ']))
        }),
{
    let keep = |s: SessionView| s.seat == seat;
    lemma_first_kept(before, first, after, keep);
    reveal_strlit(" ");
    assert(" "@ =~= seq![' ']);
    let own = on_seat(sessions, seat);
    let a = Field { key: "ID"@, value: seat };
    let b = Field { key: "ACTIVE_SESSION"@, value: own[0].id };
    let c = Field { key: "SESSIONS"@, value: text::joined_by(ids(own), " "@) };
    lemma_three_lines(a, b, c);
}

/// Letters, digits and underscores of a name stay; any other byte becomes an
/// underscore and its two hexadecimal digits.
pub proof fn law_how_names_become_components(bytes: Seq<u8>, b: u8)
    ensures
        escaped(Seq::empty()).len() == 0,
        ({
            let c = b as char;
            let stays = ('0' <= c <= '9') || ('a' <= c <= 'z') || ('A' <= c <= 'Z') || c == '_';
            let digit = |v: int| if v < 10 { (48 + v) as char } else { (87 + v) as char };
            &&& stays ==> escaped(bytes.push(b)) == escaped(bytes) + seq![c]
            &&& !stays ==> escaped(bytes.push(b)) == escaped(bytes) + seq!['_', digit(b as int / 16), digit(b as int % 16)]
        }),
{
    assert(bytes.push(b).drop_last() =~= bytes);
}

} // verus!
