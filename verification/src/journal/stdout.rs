//! The journal stdout protocol.
//!
//! A connection sends a header of three lines (an identifier, a unit name and
//! a priority) and then log lines, each of which becomes an entry.

use vstd::prelude::*;
use vstd::utf8::encode_utf8;

use crate::journal::entry::{field_bytes, parse_priority, priority_value, set_field, stamped, JournalEntry, Stamp};
use crate::names::NameMap;
use crate::text;

verus! {

/// The journal stdout path used by installed execution.
pub const DEFAULT_STDOUT_PATH: &'static str = "/run/rustd/journal/stdout";

/// A line without the newlines at its end.
pub open spec fn without_newlines(line: Seq<char>) -> Seq<char>
    decreases line.len(),
{
    if line.len() > 0 && line.last() == '\n' {
        without_newlines(line.drop_last())
    } else {
        line
    }
}

/// A line without the newlines at its end.
pub fn trim_newlines(line: &str) -> (r: String)
    ensures
        r@ == without_newlines(line@),
{
    let chars = text::chars_of(line);
    let mut end: usize = chars.len();
    assert(line@.take(end as int) =~= line@);
    while end > 0 && chars[end - 1] == '\n'
        invariant
            chars@ == line@,
            end <= chars@.len(),
            without_newlines(line@) == without_newlines(line@.take(end as int)),
        decreases end,
    {
        assert(line@.take(end as int).drop_last() =~= line@.take(end - 1));
        end -= 1;
    }
    let kept = text::substring(&chars, 0, end);
    assert(kept@ =~= line@.take(end as int));
    kept
}

/// The fields of an entry that came as a line on a stream with this header.
pub open spec fn line_fields(header: Seq<Seq<char>>, message: Seq<char>) -> Map<Seq<char>, Seq<u8>> {
    let identifier = without_newlines(header[0]);
    let unit = without_newlines(header[1]);
    let priority = priority_value(without_newlines(header[2]));
    let fields = Map::<Seq<char>, Seq<u8>>::empty().insert("MESSAGE"@, encode_utf8(message)).insert(
        "PRIORITY"@,
        encode_utf8(text::decimal(priority as nat)),
    );
    let named = if identifier.len() == 0 {
        fields
    } else {
        fields.insert("SYSLOG_IDENTIFIER"@, encode_utf8(identifier))
    };
    if unit.len() == 0 {
        named
    } else {
        named.insert("_SYSTEMD_UNIT"@, encode_utf8(unit))
    }
}

/// One connection: the header lines it has sent so far, at most three.
#[derive(Debug)]
pub struct StdoutStream {
    header: Vec<String>,
}

impl View for StdoutStream {
    type V = Seq<Seq<char>>;

    closed spec fn view(&self) -> Seq<Seq<char>> {
        text::views(self.header@)
    }
}

impl StdoutStream {
    #[verifier::type_invariant]
    spec fn wf(self) -> bool {
        self.header@.len() <= 3
    }

    /// A new connection.
    pub fn new() -> (r: Self)
        ensures
            r@ == Seq::<Seq<char>>::empty(),
    {
        let stream = StdoutStream { header: Vec::new() };
        assert(stream@ =~= Seq::<Seq<char>>::empty());
        stream
    }

    /// Take the next line. The first three are the header; every later one
    /// that is not empty makes an entry.
    pub fn on_line(&mut self, line: &str, stamp: &Stamp) -> (r: Option<JournalEntry>)
        ensures
            old(self)@.len() <= 3,
            final(self)@.len() <= 3,
            old(self)@.len() < 3 ==> r is None && final(self)@ == old(self)@.push(line@),
            old(self)@.len() == 3 ==> final(self)@ == old(self)@ && match r {
                Some(entry) => without_newlines(line@).len() > 0 && entry.wf() && entry@ == stamped(
                    line_fields(old(self)@, without_newlines(line@)),
                    *stamp,
                ),
                None => without_newlines(line@).len() == 0,
            },
    {
        proof {
            use_type_invariant(&*self);
        }
        let ghost before = self@;
        if self.header.len() < 3 {
            let mut header: Vec<String> = Vec::new();
            std::mem::swap(&mut header, &mut self.header);
            header.push(line.to_owned());
            self.header = header;
            assert(self@ =~= before.push(line@));
            return None;
        }
        let message = trim_newlines(line);
        if message.as_str().is_empty() {
            return None;
        }
        let identifier = trim_newlines(self.header[0].as_str());
        let unit = trim_newlines(self.header[1].as_str());
        let priority_text = trim_newlines(self.header[2].as_str());
        let priority = parse_priority(priority_text.as_str());
        let mut fields: NameMap<Vec<u8>> = NameMap::new();
        assert(field_bytes(fields@) =~= Map::<Seq<char>, Seq<u8>>::empty());
        set_field(&mut fields, "MESSAGE", text::bytes_of(message.as_str()));
        let digits = text::decimal_of(priority as u128);
        set_field(&mut fields, "PRIORITY", text::bytes_of(digits.as_str()));
        if !identifier.as_str().is_empty() {
            set_field(&mut fields, "SYSLOG_IDENTIFIER", text::bytes_of(identifier.as_str()));
        }
        if !unit.as_str().is_empty() {
            set_field(&mut fields, "_SYSTEMD_UNIT", text::bytes_of(unit.as_str()));
        }
        Some(JournalEntry::new(fields, stamp))
    }
}

/// A line without the line feeds at its end, however many there are, and
/// otherwise as it was.
pub proof fn law_line_feeds_at_the_end_are_dropped(line: Seq<char>)
    ensures
        without_newlines(line.push('\n')) == without_newlines(line),
        line.len() == 0 || line.last() != '\n' ==> without_newlines(line) == line,
{
    assert(line.push('\n').drop_last() =~= line);
}

/// A line becomes an entry with the line as its message, the priority that the
/// third header line gives, the identifier of the first and the unit of the
/// second, each where there is one.
pub proof fn law_what_a_line_becomes(identifier: Seq<char>, unit: Seq<char>, priority: Seq<char>, message: Seq<char>, key: Seq<char>)
    requires
        !identifier.contains('\n'),
        !unit.contains('\n'),
        !priority.contains('\n'),
    ensures
        ({
            let header = seq![identifier.push('\n'), unit.push('\n'), priority.push('\n')];
            let fields = line_fields(header, message);
            let n = text::number(priority);
            let level: nat = if n is Some && n->0 <= 255 { n->0 } else { 6 };
            &&& fields.dom().contains("MESSAGE"@) && fields["MESSAGE"@] == encode_utf8(message)
            &&& fields.dom().contains("PRIORITY"@) && fields["PRIORITY"@] == encode_utf8(text::decimal(level))
            &&& fields.dom().contains("SYSLOG_IDENTIFIER"@) <==> identifier.len() > 0
            &&& identifier.len() > 0 ==> fields["SYSLOG_IDENTIFIER"@] == encode_utf8(identifier)
            &&& fields.dom().contains("_SYSTEMD_UNIT"@) <==> unit.len() > 0
            &&& unit.len() > 0 ==> fields["_SYSTEMD_UNIT"@] == encode_utf8(unit)
            &&& fields.dom().contains(key) ==> key == "MESSAGE"@ || key == "PRIORITY"@ || key == "SYSLOG_IDENTIFIER"@ || key
                == "_SYSTEMD_UNIT"@
        }),
{
    lemma_plain_line(identifier);
    lemma_plain_line(unit);
    lemma_plain_line(priority);
    reveal_strlit("MESSAGE");
    reveal_strlit("PRIORITY");
    reveal_strlit("SYSLOG_IDENTIFIER");
    reveal_strlit("_SYSTEMD_UNIT");
    assert("MESSAGE"@.len() == 7 && "PRIORITY"@.len() == 8 && "SYSLOG_IDENTIFIER"@.len() == 17 && "_SYSTEMD_UNIT"@.len() == 13);
}

proof fn lemma_plain_line(line: Seq<char>)
    requires
        !line.contains('\n'),
    ensures
        without_newlines(line.push('\n')) == line,
{
    law_line_feeds_at_the_end_are_dropped(line);
    if line.len() > 0 {
        assert(line.contains(line[line.len() - 1]));
    }
}

} // verus!
