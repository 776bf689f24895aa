//! Journal entries and the ring buffer that readers follow by sequence number.

use vstd::prelude::*;
use vstd::utf8::{decode_utf8, encode_utf8, valid_utf8};

use crate::names::NameMap;
use crate::text;

verus! {

/// Whether a character stands between the digits of an identifier without
/// counting: a hyphen or ASCII white space.
pub open spec fn is_separator(c: char) -> bool {
    c == '-' || c == ' ' || c == '\t' || c == '\n' || c as u32 == 12 || c == '\r'
}

/// Whether a character is a hexadecimal digit.
pub open spec fn is_hex_digit(c: char) -> bool {
    ('0' <= c <= '9') || ('a' <= c <= 'f') || ('A' <= c <= 'F')
}

/// The characters of an identifier that count.
pub open spec fn id_digits(value: Seq<char>) -> Seq<char> {
    value.filter(|c: char| !is_separator(c))
}

/// The compact lower-case form of a 128-bit identifier: exactly 32
/// hexadecimal digits, separators aside.
pub open spec fn compact_id(value: Seq<char>) -> Option<Seq<char>> {
    let digits = id_digits(value);
    if digits.len() == 32 && (forall|i: int| 0 <= i < 32 ==> is_hex_digit(#[trigger] digits[i])) {
        Some(digits.map_values(|c: char| text::ascii_lower(c)))
    } else {
        None
    }
}

proof fn lemma_id_step(value: Seq<char>, i: int)
    requires
        0 <= i < value.len(),
    ensures
        id_digits(value.take(i + 1)) == if is_separator(value[i]) {
            id_digits(value.take(i))
        } else {
            id_digits(value.take(i)).push(value[i])
        },
{
    let counts = |c: char| !is_separator(c);
    assert(value.take(i + 1) =~= value.take(i).push(value[i]));
    value.take(i).lemma_filter_push(value[i], counts);
}

proof fn lemma_id_prefix(value: Seq<char>, i: int)
    requires
        0 <= i <= value.len(),
    ensures
        id_digits(value) == id_digits(value.take(i)) + id_digits(value.skip(i)),
{
    let counts = |c: char| !is_separator(c);
    assert(value =~= value.take(i) + value.skip(i));
    Seq::filter_distributes_over_add(value.take(i), value.skip(i), counts);
}

/// Reduce a 128-bit identifier, written compactly or with hyphens, to 32
/// lower-case hexadecimal digits.
pub fn normalize_id128(value: &str) -> (r: Option<String>)
    ensures
        text::opt_view(r) == compact_id(value@),
{
    let chars = text::chars_of(value);
    let mut compact = String::new();
    let mut count: usize = 0;
    let mut i: usize = 0;
    proof {
        reveal_with_fuel(Seq::filter, 1);
        assert(value@.take(0) =~= Seq::<char>::empty());
        assert(compact@ =~= id_digits(value@.take(0)).map_values(|c: char| text::ascii_lower(c)));
    }
    while i < chars.len()
        invariant
            chars@ == value@,
            i <= chars@.len(),
            count == id_digits(value@.take(i as int)).len(),
            count <= 32,
            forall|k: int| 0 <= k < count ==> is_hex_digit(#[trigger] id_digits(value@.take(i as int))[k]),
            compact@ == id_digits(value@.take(i as int)).map_values(|c: char| text::ascii_lower(c)),
        decreases chars@.len() - i,
    {
        let c = chars[i];
        let ghost before = id_digits(value@.take(i as int));
        proof {
            lemma_id_step(value@, i as int);
        }
        if c == '-' || c == ' ' || c == '\t' || c == '\n' || c as u32 == 12 || c == '\r' {
            i += 1;
            continue;
        }
        let hex = ('0' <= c && c <= '9') || ('a' <= c && c <= 'f') || ('A' <= c && c <= 'F');
        if !hex || count >= 32 {
            proof {
                lemma_id_prefix(value@, i + 1);
                assert(id_digits(value@)[count as int] == c);
            }
            return None;
        }
        compact.push(text::lower(c));
        assert(compact@ =~= before.push(c).map_values(|c: char| text::ascii_lower(c)));
        count += 1;
        i += 1;
    }
    assert(value@.take(i as int) =~= value@);
    if count == 32 {
        Some(compact)
    } else {
        None
    }
}

/// The counter that numbers entries.
#[derive(Debug)]
pub struct Sequence {
    next: u64,
}

impl View for Sequence {
    type V = u64;

    closed spec fn view(&self) -> u64 {
        self.next
    }
}

/// The number that follows another. After the largest comes zero.
pub open spec fn number_after(n: u64) -> u64 {
    if n == u64::MAX {
        0
    } else {
        (n + 1) as u64
    }
}

/// Whether a counter gave these numbers out, in this order.
pub open spec fn given_out(numbers: Seq<u64>) -> bool {
    forall|i: int, j: int| 0 <= i && j == i + 1 && j < numbers.len() ==> #[trigger] numbers[j] == number_after(#[trigger] numbers[i])
}

impl Sequence {
    /// A counter whose first number is one.
    pub fn new() -> (r: Self)
        ensures
            r@ == 1,
    {
        Sequence { next: 1 }
    }

    /// The next number. After the largest the counter starts over at zero.
    pub fn next_seqnum(&mut self) -> (r: u64)
        ensures
            r == old(self)@,
            final(self)@ == number_after(old(self)@),
    {
        let number: u64 = self.next;
        self.next = number.wrapping_add(1);
        number
    }
}

/// What an entry is stamped with when it is made: the time, its number, and
/// the boot it belongs to where that is known.
#[derive(Debug)]
pub struct Stamp {
    pub realtime_usec: u64,
    pub seqnum: u64,
    pub boot_id: Option<String>,
}

/// A single journal entry: a set of fields plus metadata.
#[derive(Debug)]
pub struct JournalEntry {
    /// Realtime timestamp in microseconds since the Unix epoch.
    pub realtime_usec: u64,
    /// Sequence number.
    pub seqnum: u64,
    /// Fields such as `MESSAGE`, `PRIORITY` and `_PID`.
    pub fields: NameMap<Vec<u8>>,
}

/// What an entry says.
#[verifier::ext_equal]
pub struct EntryView {
    pub realtime_usec: u64,
    pub seqnum: u64,
    pub fields: Map<Seq<char>, Seq<u8>>,
}

/// Fields by their bytes.
pub open spec fn field_bytes(fields: Map<Seq<char>, Vec<u8>>) -> Map<Seq<char>, Seq<u8>> {
    fields.map_values(|v: Vec<u8>| v@)
}

impl View for JournalEntry {
    type V = EntryView;

    open spec fn view(&self) -> EntryView {
        EntryView { realtime_usec: self.realtime_usec, seqnum: self.seqnum, fields: field_bytes(self.fields@) }
    }
}

/// The fields with the boot that the stamp names, unless they name one.
pub open spec fn with_boot(fields: Map<Seq<char>, Seq<u8>>, stamp: Stamp) -> Map<Seq<char>, Seq<u8>> {
    match stamp.boot_id {
        Some(boot_id) if !fields.dom().contains("_BOOT_ID"@) => fields.insert("_BOOT_ID"@, encode_utf8(boot_id@)),
        _ => fields,
    }
}

/// The entry that some fields make under a stamp.
pub open spec fn stamped(fields: Map<Seq<char>, Seq<u8>>, stamp: Stamp) -> EntryView {
    EntryView { realtime_usec: stamp.realtime_usec, seqnum: stamp.seqnum, fields: with_boot(fields, stamp) }
}

/// The fields of a plain text message.
pub open spec fn message_fields(unit: Seq<char>, priority: u8, msg: Seq<char>) -> Map<Seq<char>, Seq<u8>> {
    let fields = Map::<Seq<char>, Seq<u8>>::empty().insert("MESSAGE"@, encode_utf8(msg)).insert(
        "PRIORITY"@,
        encode_utf8(text::decimal(priority as nat)),
    );
    if unit.len() == 0 {
        fields
    } else {
        fields.insert("_SYSTEMD_UNIT"@, encode_utf8(unit))
    }
}

/// The text of a field, where there is one and it is UTF-8.
pub open spec fn field_text(fields: Map<Seq<char>, Seq<u8>>, key: Seq<char>) -> Option<Seq<char>> {
    if fields.dom().contains(key) && valid_utf8(fields[key]) {
        Some(decode_utf8(fields[key]))
    } else {
        None
    }
}

/// The text of a field, or no text.
pub open spec fn text_or_empty(fields: Map<Seq<char>, Seq<u8>>, key: Seq<char>) -> Seq<char> {
    match field_text(fields, key) {
        Some(s) => s,
        None => Seq::empty(),
    }
}

/// The priority that a text denotes, or that of an informational message.
pub open spec fn priority_value(s: Seq<char>) -> u8 {
    match text::number_upto(s, 255) {
        Some(n) => n as u8,
        None => 6,
    }
}

/// The priority of an entry, or that of an informational message.
pub open spec fn priority_of(fields: Map<Seq<char>, Seq<u8>>) -> u8 {
    match field_text(fields, "PRIORITY"@) {
        Some(s) => priority_value(s),
        None => 6,
    }
}

/// The priority that a text denotes, or that of an informational message.
pub fn parse_priority(s: &str) -> (r: u8)
    ensures
        r == priority_value(s@),
{
    match text::parse_number(s, 255) {
        Some(n) => n as u8,
        None => 6,
    }
}

/// Set a field.
pub fn set_field(fields: &mut NameMap<Vec<u8>>, key: &str, value: Vec<u8>)
    requires
        old(fields).wf(),
    ensures
        final(fields).wf(),
        field_bytes(final(fields)@) == field_bytes(old(fields)@).insert(key@, value@),
{
    let ghost before = fields@;
    fields.insert(key.to_owned(), value);
    assert(field_bytes(fields@) =~= field_bytes(before).insert(key@, value@));
}

impl JournalEntry {
    /// The fields are a well-formed map.
    pub open spec fn wf(&self) -> bool {
        self.fields.wf()
    }

    /// Create a new entry, naming the current boot when the caller has not
    /// already supplied historical `_BOOT_ID` metadata.
    pub fn new(fields: NameMap<Vec<u8>>, stamp: &Stamp) -> (r: Self)
        requires
            fields.wf(),
        ensures
            r.wf(),
            r@ == stamped(field_bytes(fields@), *stamp),
    {
        let mut fields = fields;
        if !fields.contains("_BOOT_ID") {
            if let Some(boot_id) = &stamp.boot_id {
                set_field(&mut fields, "_BOOT_ID", text::bytes_of(boot_id.as_str()));
            }
        }
        JournalEntry { realtime_usec: stamp.realtime_usec, seqnum: stamp.seqnum, fields }
    }

    /// Build a simple text message entry.
    pub fn message(unit: &str, priority: u8, msg: &str, stamp: &Stamp) -> (r: Self)
        ensures
            r.wf(),
            r@ == stamped(message_fields(unit@, priority, msg@), *stamp),
    {
        let mut fields: NameMap<Vec<u8>> = NameMap::new();
        assert(field_bytes(fields@) =~= Map::<Seq<char>, Seq<u8>>::empty());
        set_field(&mut fields, "MESSAGE", text::bytes_of(msg));
        let digits = text::decimal_of(priority as u128);
        set_field(&mut fields, "PRIORITY", text::bytes_of(digits.as_str()));
        let empty = unit.is_empty();
        if !empty {
            set_field(&mut fields, "_SYSTEMD_UNIT", text::bytes_of(unit));
        }
        JournalEntry::new(fields, stamp)
    }

    /// The text of a field, where there is one and it is UTF-8.
    pub fn text(&self, key: &str) -> (r: Option<&str>)
        requires
            self.wf(),
        ensures
            match r {
                Some(s) => field_text(self@.fields, key@) == Some(s@),
                None => field_text(self@.fields, key@) is None,
            },
    {
        match self.fields.get(key) {
            Some(v) => text::from_utf8(v.as_slice()),
            None => None,
        }
    }

    /// The `MESSAGE` field, or no text.
    pub fn message_str(&self) -> (r: &str)
        requires
            self.wf(),
        ensures
            r@ == text_or_empty(self@.fields, "MESSAGE"@),
    {
        proof {
            reveal_strlit("");
        }
        match self.text("MESSAGE") {
            Some(s) => s,
            None => "",
        }
    }

    /// The `PRIORITY` field, or that of an informational message.
    pub fn priority(&self) -> (r: u8)
        requires
            self.wf(),
        ensures
            r == priority_of(self@.fields),
    {
        match self.text("PRIORITY") {
            Some(s) => parse_priority(s),
            None => 6,
        }
    }

    /// The `_SYSTEMD_UNIT` field, or no text.
    pub fn unit(&self) -> (r: &str)
        requires
            self.wf(),
        ensures
            r@ == text_or_empty(self@.fields, "_SYSTEMD_UNIT"@),
    {
        proof {
            reveal_strlit("");
        }
        match self.text("_SYSTEMD_UNIT") {
            Some(s) => s,
            None => "",
        }
    }

    /// The `_PID` field, or no text.
    pub fn pid_str(&self) -> (r: &str)
        requires
            self.wf(),
        ensures
            r@ == text_or_empty(self@.fields, "_PID"@),
    {
        proof {
            reveal_strlit("");
        }
        match self.text("_PID") {
            Some(s) => s,
            None => "",
        }
    }
}

/// A message reads back as it was written: its text, its priority and its
/// unit are what `message` was given, under whatever stamp.
pub proof fn law_message_reads_back(unit: Seq<char>, priority: u8, msg: Seq<char>, stamp: Stamp)
    ensures
        ({
            let fields = stamped(message_fields(unit, priority, msg), stamp).fields;
            &&& text_or_empty(fields, "MESSAGE"@) == msg
            &&& priority_of(fields) == priority
            &&& text_or_empty(fields, "_SYSTEMD_UNIT"@) == unit
        }),
{
    reveal_strlit("MESSAGE");
    reveal_strlit("PRIORITY");
    reveal_strlit("_SYSTEMD_UNIT");
    reveal_strlit("_BOOT_ID");
    assert("MESSAGE"@.len() == 7 && "PRIORITY"@.len() == 8 && "_SYSTEMD_UNIT"@.len() == 13 && "_BOOT_ID"@[0] == '_');
    assert("PRIORITY"@[0] == 'P');
    vstd::utf8::encode_utf8_valid_utf8(msg);
    vstd::utf8::encode_utf8_decode_utf8(msg);
    vstd::utf8::encode_utf8_valid_utf8(unit);
    vstd::utf8::encode_utf8_decode_utf8(unit);
    let digits = text::decimal(priority as nat);
    vstd::utf8::encode_utf8_valid_utf8(digits);
    vstd::utf8::encode_utf8_decode_utf8(digits);
    text::lemma_decimal_reads_back(priority as nat);
    assert(unit.len() == 0 ==> unit =~= Seq::empty());
}

proof fn lemma_numbers(numbers: Seq<u64>, i: int, j: int)
    requires
        given_out(numbers),
        0 <= i <= j < numbers.len(),
        forall|k: int| i <= k < j ==> #[trigger] numbers[k] != u64::MAX,
    ensures
        numbers[j] == numbers[i] + (j - i),
    decreases j - i,
{
    if i < j {
        lemma_numbers(numbers, i, j - 1);
        assert(numbers[j] == number_after(numbers[j - 1]));
    }
}

/// Of two entries, the one stamped later has the greater number, whatever was
/// stamped in between, until the counter starts over.
pub proof fn law_later_entries_have_greater_numbers(
    numbers: Seq<u64>,
    i: int,
    j: int,
    earlier: Stamp,
    earlier_fields: Map<Seq<char>, Seq<u8>>,
    later: Stamp,
    later_fields: Map<Seq<char>, Seq<u8>>,
)
    requires
        given_out(numbers),
        0 <= i < j < numbers.len(),
        forall|k: int| i <= k < j ==> #[trigger] numbers[k] != u64::MAX,
        earlier.seqnum == numbers[i],
        later.seqnum == numbers[j],
    ensures
        stamped(earlier_fields, earlier).seqnum < stamped(later_fields, later).seqnum,
        stamped(later_fields, later).seqnum == stamped(earlier_fields, earlier).seqnum + (j - i),
{
    lemma_numbers(numbers, i, j);
}

/// A boot that the fields already name is kept; otherwise the entry names the
/// boot of its stamp.
pub proof fn law_historical_boot_is_kept(fields: Map<Seq<char>, Seq<u8>>, stamp: Stamp)
    ensures
        fields.dom().contains("_BOOT_ID"@) ==> stamped(fields, stamp).fields == fields,
        !fields.dom().contains("_BOOT_ID"@) && stamp.boot_id is Some ==> stamped(fields, stamp).fields["_BOOT_ID"@]
            == encode_utf8(stamp.boot_id->0@),
        forall|key: Seq<char>| key != "_BOOT_ID"@ ==> (stamped(fields, stamp).fields.dom().contains(key)
            <==> #[trigger] fields.dom().contains(key)),
{
}

/// A bounded ring buffer of journal entries.
///
/// It holds the latest entries, up to its capacity; when it is full, the
/// oldest is overwritten. Readers track their position by the sequence number
/// of the last entry that they consumed.
#[derive(Debug)]
pub struct EntryRing {
    capacity: usize,
    entries: Vec<JournalEntry>,
    head: usize,
    total: usize,
}

/// What a ring holds.
#[verifier::ext_equal]
pub struct RingView {
    /// How many entries are retained at most.
    pub capacity: int,
    /// The retained entries, oldest first.
    pub retained: Seq<JournalEntry>,
    /// How many entries were ever pushed.
    pub total: int,
}

impl RingView {
    /// What holds of every ring: it can hold an entry, it never holds more than
    /// its capacity, and all that it holds was pushed.
    pub open spec fn bounded(self) -> bool {
        &&& 0 < self.capacity
        &&& self.retained.len() <= self.capacity
        &&& self.retained.len() <= self.total
        &&& self.retained.len() < self.capacity ==> self.retained.len() == self.total
    }
}

/// The last `n` of a sequence, or all of it.
pub open spec fn latest<T>(s: Seq<T>, n: int) -> Seq<T> {
    if s.len() <= n {
        s
    } else {
        s.skip(s.len() - n)
    }
}

/// What a push makes of a ring.
pub open spec fn pushed(ring: RingView, entry: JournalEntry) -> RingView {
    RingView {
        capacity: ring.capacity,
        retained: latest(ring.retained.push(entry), ring.capacity),
        total: ring.total + 1,
    }
}

/// The retained entries that come after a sequence number, oldest first.
pub open spec fn since(retained: Seq<JournalEntry>, after_seqnum: u64) -> Seq<JournalEntry> {
    retained.filter(|e: JournalEntry| e.seqnum > after_seqnum)
}

impl View for EntryRing {
    type V = RingView;

    closed spec fn view(&self) -> RingView {
        RingView {
            capacity: self.capacity as int,
            retained: if self.entries@.len() < self.capacity {
                self.entries@
            } else {
                self.entries@.skip(self.head as int) + self.entries@.take(self.head as int)
            },
            total: self.total as int,
        }
    }
}

impl EntryRing {
    /// The head is where the oldest entry stands.
    pub closed spec fn wf(&self) -> bool {
        &&& self.capacity > 0
        &&& self.entries@.len() <= self.capacity
        &&& self.entries@.len() < self.capacity ==> self.head == self.entries@.len() && self.total == self.entries@.len()
        &&& self.entries@.len() == self.capacity ==> self.head < self.capacity && self.total >= self.capacity && (
            self.total == self.capacity ==> self.head == 0)
        &&& forall|i: int| 0 <= i < self.entries@.len() ==> (#[trigger] self.entries@[i]).wf()
    }

    /// A ring never holds more than its capacity, which is positive.
    pub proof fn lemma_bounds(&self)
        requires
            self.wf(),
        ensures
            self@.bounded(),
    {
    }

    /// Create a ring with the given capacity, at least one.
    pub fn new(capacity: usize) -> (r: Self)
        ensures
            r.wf(),
            r@ == (RingView {
                capacity: if capacity == 0 {
                    1
                } else {
                    capacity as int
                },
                retained: Seq::empty(),
                total: 0,
            }),
    {
        let capacity: usize = if capacity == 0 {
            1
        } else {
            capacity
        };
        EntryRing { capacity, entries: Vec::new(), head: 0, total: 0 }
    }

    /// Push a new entry into the ring.
    pub fn push(&mut self, entry: JournalEntry)
        requires
            old(self).wf(),
            old(self)@.total < usize::MAX,
            entry.wf(),
        ensures
            final(self).wf(),
            final(self)@ == pushed(old(self)@, entry),
    {
        let ghost before = *self;
        let at: usize = self.head;
        if self.entries.len() < self.capacity {
            self.entries.push(entry);
        } else {
            self.entries.set(at, entry);
        }
        self.head = if at + 1 == self.capacity {
            0
        } else {
            at + 1
        };
        self.total = self.total + 1;
        assert(self@.retained =~= latest(before@.retained.push(entry), before@.capacity));
    }

    /// All retained entries with a sequence number above `after_seqnum`, in
    /// insertion order.
    pub fn drain_since(&self, after_seqnum: u64) -> (r: Vec<&JournalEntry>)
        requires
            self.wf(),
        ensures
            r@.map_values(|e: &JournalEntry| *e) == since(self@.retained, after_seqnum),
            forall|i: int| 0 <= i < r@.len() ==> (#[trigger] r@[i]).wf(),
    {
        let mut out: Vec<&JournalEntry> = Vec::new();
        let count: usize = self.entries.len();
        let full = count == self.capacity;
        let mut i: usize = 0;
        let ghost pred = |e: JournalEntry| e.seqnum > after_seqnum;
        let ghost retained = self@.retained;
        assert(retained.take(0) =~= Seq::<JournalEntry>::empty());
        proof {
            reveal_with_fuel(Seq::filter, 1);
        }
        assert(out@.map_values(|e: &JournalEntry| *e) =~= since(retained.take(0), after_seqnum));
        while i < count
            invariant
                self.wf(),
                count == self.entries@.len(),
                full == (count == self.capacity),
                retained == self@.retained,
                i <= count,
                pred == (|e: JournalEntry| e.seqnum > after_seqnum),
                out@.map_values(|e: &JournalEntry| *e) == since(retained.take(i as int), after_seqnum),
                forall|k: int| 0 <= k < out@.len() ==> (#[trigger] out@[k]).wf(),
            decreases count - i,
        {
            let at: usize = if !full {
                i
            } else if i < count - self.head {
                self.head + i
            } else {
                i - (count - self.head)
            };
            let entry = &self.entries[at];
            assert(*entry == retained[i as int]);
            let ghost before = out@;
            proof {
                assert(retained.take(i + 1) =~= retained.take(i as int).push(*entry));
                retained.take(i as int).lemma_filter_push(*entry, pred);
            }
            if entry.seqnum > after_seqnum {
                out.push(entry);
                assert(out@.map_values(|e: &JournalEntry| *e) =~= before.map_values(|e: &JournalEntry| *e).push(*entry));
            }
            i += 1;
        }
        assert(retained.take(i as int) =~= retained);
        out
    }

    /// Total entries ever pushed, not just those retained.
    pub fn total_pushed(&self) -> (r: usize)
        ensures
            r == self@.total,
    {
        self.total
    }

    /// Number of entries currently retained.
    pub fn len(&self) -> (r: usize)
        requires
            self.wf(),
        ensures
            r == self@.retained.len(),
    {
        self.entries.len()
    }

    /// True if the ring contains no entries.
    pub fn is_empty(&self) -> (r: bool)
        requires
            self.wf(),
        ensures
            r == (self@.retained.len() == 0),
    {
        self.entries.len() == 0
    }
}

/// What a ring with the given capacity holds after a history of pushes.
pub open spec fn ring_after(capacity: usize, history: Seq<JournalEntry>) -> RingView
    decreases history.len(),
{
    if history.len() == 0 {
        RingView {
            capacity: if capacity == 0 {
                1
            } else {
                capacity as int
            },
            retained: Seq::empty(),
            total: 0,
        }
    } else {
        pushed(ring_after(capacity, history.drop_last()), history.last())
    }
}

/// Whatever is pushed into a new ring, it holds the latest entries, in the
/// order of their pushes, as many as fit, and knows how many there were.
pub proof fn law_ring_holds_the_latest_of_its_history(capacity: usize, history: Seq<JournalEntry>)
    ensures
        ({
            let ring = ring_after(capacity, history);
            &&& ring.bounded()
            &&& ring.capacity == if capacity == 0 {
                1
            } else {
                capacity as int
            }
            &&& ring.retained == latest(history, ring.capacity)
            &&& ring.retained.len() == if history.len() < ring.capacity {
                history.len() as int
            } else {
                ring.capacity
            }
            &&& ring.total == history.len()
        }),
    decreases history.len(),
{
    if history.len() == 0 {
        assert(latest(history, ring_after(capacity, history).capacity) =~= Seq::<JournalEntry>::empty());
    } else {
        let before = history.drop_last();
        law_ring_holds_the_latest_of_its_history(capacity, before);
        law_ring_holds_the_latest(ring_after(capacity, before), before, history.last());
        assert(before.push(history.last()) =~= history);
    }
}

/// A push adds its entry at the end and loses the oldest one exactly when the
/// ring is full; a ring never holds more than its capacity, and the count of
/// pushes grows by one.
pub proof fn law_push_loses_only_the_oldest(ring: EntryRing, entry: JournalEntry)
    requires
        ring.wf(),
    ensures
        ({
            let before = ring@;
            let after = pushed(before, entry);
            &&& after.bounded()
            &&& after.capacity == before.capacity
            &&& after.total == before.total + 1
            &&& after.retained == if before.retained.len() < before.capacity {
                before.retained.push(entry)
            } else {
                before.retained.drop_first().push(entry)
            }
        }),
{
    ring.lemma_bounds();
    let before = ring@;
    if before.retained.len() == before.capacity {
        assert(before.retained.push(entry).skip(1) =~= before.retained.drop_first().push(entry));
    }
}

/// A ring that holds the latest of what was pushed holds the latest after
/// every further push.
pub proof fn law_ring_holds_the_latest(ring: RingView, history: Seq<JournalEntry>, entry: JournalEntry)
    requires
        ring.capacity > 0,
        ring.retained == latest(history, ring.capacity),
    ensures
        pushed(ring, entry).retained == latest(history.push(entry), ring.capacity),
        pushed(ring, entry).capacity == ring.capacity,
        pushed(ring, entry).retained.len() <= ring.capacity,
        pushed(ring, entry).retained.last() == entry,
{
    assert(pushed(ring, entry).retained =~= latest(history.push(entry), ring.capacity));
}

/// A reader that resumes from the number of an entry it has seen gets exactly
/// the entries numbered above it.
pub proof fn law_cursor_resumes_after(retained: Seq<JournalEntry>, after_seqnum: u64, entry: JournalEntry)
    ensures
        since(retained, after_seqnum).contains(entry) <==> retained.contains(entry) && entry.seqnum > after_seqnum,
{
    let pred = |e: JournalEntry| e.seqnum > after_seqnum;
    broadcast use vstd::seq_lib::group_filter_ensures;

    if retained.contains(entry) && pred(entry) {
        let i = choose|i: int| 0 <= i < retained.len() && retained[i] == entry;
        retained.lemma_filter_contains(pred, i);
    }
    if since(retained, after_seqnum).contains(entry) {
        retained.lemma_filter_contains_rev(pred, entry);
    }
}

/// An identifier is read digit by digit: a hyphen or white space between digits
/// does not count, wherever it stands.
pub proof fn law_separators_do_not_count(a: Seq<char>, b: Seq<char>, c: char)
    requires
        c == '-' || c == ' ' || c == '\t' || c == '\n' || c == '\r' || c as u32 == 12,
    ensures
        compact_id(a.push(c) + b) == compact_id(a + b),
{
    let counts = |x: char| !is_separator(x);
    let whole = a.push(c) + b;
    Seq::filter_distributes_over_add(a.push(c), b, counts);
    Seq::filter_distributes_over_add(a, b, counts);
    a.lemma_filter_push(c, counts);
}

/// Without separators an identifier is 32 hexadecimal digits, no more and no
/// fewer; its letters come out in lower case.
pub proof fn law_an_identifier_has_32_digits(s: Seq<char>)
    requires
        forall|i: int|
            0 <= i < s.len() ==> #[trigger] s[i] != '-' && s[i] != ' ' && s[i] != '\t' && s[i] != '\n' && s[i] != '\r' && s[i] as u32
                != 12,
    ensures
        compact_id(s) is Some <==> s.len() == 32 && forall|i: int|
            0 <= i < s.len() ==> ('0' <= #[trigger] s[i] <= '9') || ('a' <= s[i] <= 'f') || ('A' <= s[i] <= 'F'),
        compact_id(s) is Some ==> compact_id(s)->0 == s.map_values(
            |c: char|
                if 'A' <= c <= 'F' {
                    (c as int + 32) as char
                } else {
                    c
                },
        ),
{
    let counts = |c: char| !is_separator(c);
    assert forall|i: int| 0 <= i < s.len() implies counts(#[trigger] s[i]) by {
    }
    lemma_all_count(s, counts);
    if compact_id(s) is Some {
        assert forall|i: int| 0 <= i < s.len() implies ('0' <= #[trigger] s[i] <= '9') || ('a' <= s[i] <= 'f') || ('A' <= s[i] <= 'F') by {
            assert(is_hex_digit(id_digits(s)[i]));
        }
        assert(compact_id(s)->0 =~= s.map_values(
            |c: char|
                if 'A' <= c <= 'F' {
                    (c as int + 32) as char
                } else {
                    c
                },
        )) by {
            assert forall|i: int| 0 <= i < s.len() implies compact_id(s)->0[i] == (if 'A' <= s[i] <= 'F' {
                (s[i] as int + 32) as char
            } else {
                s[i]
            }) by {
                assert(is_hex_digit(id_digits(s)[i]));
            }
        }
    }
}

proof fn lemma_all_count(s: Seq<char>, counts: spec_fn(char) -> bool)
    requires
        forall|i: int| 0 <= i < s.len() ==> counts(#[trigger] s[i]),
    ensures
        s.filter(counts) == s,
    decreases s.len(),
{
    reveal(Seq::filter);
    if s.len() > 0 {
        lemma_all_count(s.drop_last(), counts);
        assert(s =~= s.drop_last().push(s.last()));
    }
}

/// A message is kept as its bytes, with its priority in digits and, where it
/// has a unit, the name of that.
pub proof fn law_what_a_message_is_kept_as(unit: Seq<char>, priority: u8, msg: Seq<char>, key: Seq<char>)
    ensures
        ({
            let fields = message_fields(unit, priority, msg);
            &&& fields.dom().contains("MESSAGE"@) && fields["MESSAGE"@] == encode_utf8(msg)
            &&& fields.dom().contains("PRIORITY"@) && fields["PRIORITY"@] == encode_utf8(text::decimal(priority as nat))
            &&& fields.dom().contains("_SYSTEMD_UNIT"@) <==> unit.len() > 0
            &&& unit.len() > 0 ==> fields["_SYSTEMD_UNIT"@] == encode_utf8(unit)
            &&& fields.dom().contains(key) ==> key == "MESSAGE"@ || key == "PRIORITY"@ || key == "_SYSTEMD_UNIT"@
        }),
{
    reveal_strlit("MESSAGE");
    reveal_strlit("PRIORITY");
    reveal_strlit("_SYSTEMD_UNIT");
    assert("MESSAGE"@.len() == 7 && "PRIORITY"@.len() == 8 && "_SYSTEMD_UNIT"@.len() == 13);
}

/// A field reads as the text that its bytes encode, and as none where it is not
/// there or is no text. An entry without a readable priority is informational.
pub proof fn law_how_fields_read(fields: Map<Seq<char>, Seq<u8>>, key: Seq<char>, t: Seq<char>, n: nat)
    ensures
        fields.dom().contains(key) && fields[key] == encode_utf8(t) ==> field_text(fields, key) == Some(t) && text_or_empty(fields, key) == t,
        !fields.dom().contains(key) || !valid_utf8(fields[key]) ==> field_text(fields, key) is None && text_or_empty(fields, key).len() == 0,
        fields.dom().contains("PRIORITY"@) && fields["PRIORITY"@] == encode_utf8(t) && text::number(t) == Some(n) && n <= 255
            ==> priority_of(fields) == n,
        fields.dom().contains("PRIORITY"@) && fields["PRIORITY"@] == encode_utf8(t) && (text::number(t) is None || text::number(t)->0 > 255)
            ==> priority_of(fields) == 6,
        !fields.dom().contains("PRIORITY"@) || !valid_utf8(fields["PRIORITY"@]) ==> priority_of(fields) == 6,
{
    vstd::utf8::encode_utf8_valid_utf8(t);
    vstd::utf8::encode_utf8_decode_utf8(t);
}

/// An entry has the time and number of its stamp and every field that it was
/// made of, unchanged.
pub proof fn law_an_entry_keeps_its_fields(fields: Map<Seq<char>, Seq<u8>>, stamp: Stamp, key: Seq<char>)
    ensures
        stamped(fields, stamp).realtime_usec == stamp.realtime_usec,
        stamped(fields, stamp).seqnum == stamp.seqnum,
        fields.dom().contains(key) ==> stamped(fields, stamp).fields.dom().contains(key) && stamped(fields, stamp).fields[key] == fields[key],
        stamped(fields, stamp).fields.dom().contains(key) && !fields.dom().contains(key) ==> key == "_BOOT_ID"@ && stamp.boot_id is Some,
        stamp.boot_id is None ==> stamped(fields, stamp).fields == fields,
{
}

/// The numbers of entries follow one another; after the largest comes zero.
pub proof fn law_numbers_follow_one_another(n: u64)
    ensures
        n < u64::MAX ==> number_after(n) == n + 1,
        number_after(u64::MAX) == 0,
{
}

/// A reader gets the entries that it has not seen in the order in which they
/// came, each once.
pub proof fn law_entries_are_read_in_order(retained: Seq<JournalEntry>, last: JournalEntry, after_seqnum: u64)
    ensures
        since(Seq::empty(), after_seqnum) == Seq::<JournalEntry>::empty(),
        last.seqnum > after_seqnum ==> since(retained.push(last), after_seqnum) == since(retained, after_seqnum).push(last),
        last.seqnum <= after_seqnum ==> since(retained.push(last), after_seqnum) == since(retained, after_seqnum),
{
    let unseen = |e: JournalEntry| e.seqnum > after_seqnum;
    retained.lemma_filter_push(last, unseen);
    reveal(Seq::filter);
}

/// The latest entries of a history are its last ones, as many as there is room
/// for.
pub proof fn law_the_latest_are_the_last(history: Seq<JournalEntry>, capacity: int)
    requires
        capacity > 0,
    ensures
        history.len() <= capacity ==> latest(history, capacity) == history,
        history.len() > capacity ==> latest(history, capacity) == history.skip(history.len() - capacity),
{
    if history.len() <= capacity {
        assert(latest(history, capacity) =~= history);
    } else {
        assert(latest(history, capacity) =~= history.skip(history.len() - capacity));
    }
}

/// A priority is a number of one byte; what is none counts as 6, that of an
/// informational message.
pub proof fn law_which_priority_a_text_gives(s: Seq<char>, n: u8)
    ensures
        text::number_upto(s, 255) == Some(n as nat) ==> priority_value(s) == n,
        text::number_upto(s, 255) is None ==> priority_value(s) == 6,
{
}

} // verus!
