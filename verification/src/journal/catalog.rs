//! Journal message catalog database support: the binary database, the catalog
//! source format, and what lookups answer.

use vstd::bytes::{spec_u32_from_le_bytes, spec_u32_to_le_bytes, spec_u64_from_le_bytes, spec_u64_to_le_bytes};
use vstd::prelude::*;
use vstd::utf8::{decode_utf8, encode_utf8, valid_utf8};

use crate::names::NameMap;
use crate::text;

verus! {

/// Size of the database header.
pub const HEADER_SIZE: usize = 40;

/// Size of one entry of the item table.
pub const ITEM_SIZE: usize = 56;

/// Size of the language field in an item.
pub const LANGUAGE_SIZE: usize = 32;

/// Why a catalog was refused.
#[derive(Debug, Clone, Copy, PartialEq, Eq, Structural)]
pub enum CatalogError {
    /// The message ID is not a 128-bit hexadecimal identifier.
    InvalidId,
    /// The database is too short or does not begin with the signature.
    InvalidHeader,
    /// A size in the database does not fit in memory.
    DoesNotFit,
    /// The header has features or sizes that this reader does not know.
    UnsupportedHeader,
    /// The item table is larger than can be addressed.
    TableOverflows,
    /// The item table reaches beyond the end.
    TruncatedTable,
    /// A language is not UTF-8.
    InvalidLanguage,
    /// A language fills its whole field.
    LanguageTooLong,
    /// A string offset is larger than can be addressed.
    OffsetOverflows,
    /// A string starts beyond the end.
    OffsetOutOfBounds,
    /// A string has no end.
    UnterminatedString,
    /// A string is not UTF-8.
    InvalidText,
    /// The items are not in ascending order.
    Unsorted,
    /// The position of an integer is larger than can be addressed.
    IntegerOverflows,
    /// An integer reaches beyond the end.
    TruncatedInteger,
}

/// What message ID a run of hexadecimal digits denotes.
pub open spec fn is_hex(c: char) -> bool {
    ('0' <= c <= '9') || ('a' <= c <= 'f') || ('A' <= c <= 'F')
}

/// The value of a hexadecimal digit.
pub open spec fn hex_value(c: char) -> int {
    if '0' <= c <= '9' {
        c as int - '0' as int
    } else if 'a' <= c <= 'f' {
        c as int - 'a' as int + 10
    } else {
        c as int - 'A' as int + 10
    }
}

/// A string without its hyphens.
pub open spec fn compact(value: Seq<char>) -> Seq<char> {
    value.filter(|c: char| c != '-')
}

/// Whether a string spells a message ID: 32 hexadecimal digits, hyphens
/// anywhere between them.
pub open spec fn is_id(value: Seq<char>) -> bool {
    compact(value).len() == 32 && forall|i: int| 0 <= i < 32 ==> is_hex(#[trigger] compact(value)[i])
}

/// The message ID that a string spells.
pub open spec fn id_of(value: Seq<char>) -> Seq<u8> {
    Seq::new(16, |i: int| (hex_value(compact(value)[2 * i]) * 16 + hex_value(compact(value)[2 * i + 1])) as u8)
}

fn digit(c: char) -> (r: Option<u8>)
    ensures
        match r {
            Some(v) => is_hex(c) && v == hex_value(c) && v < 16,
            None => !is_hex(c),
        },
{
    if '0' <= c && c <= '9' {
        Some((c as u32 - '0' as u32) as u8)
    } else if 'a' <= c && c <= 'f' {
        Some((c as u32 - 'a' as u32 + 10) as u8)
    } else if 'A' <= c && c <= 'F' {
        Some((c as u32 - 'A' as u32 + 10) as u8)
    } else {
        None
    }
}

/// Parse an identifier accepted by catalog commands and `MESSAGE_ID=`.
pub fn parse_id(value: &str) -> (r: Result<[u8; 16], CatalogError>)
    ensures
        match r {
            Ok(id) => is_id(value@) && id@ == id_of(value@),
            Err(error) => !is_id(value@) && error == CatalogError::InvalidId,
        },
{
    let ghost keep = |c: char| c != '-';
    let chars = text::chars_of(value);
    let mut kept: Vec<char> = Vec::new();
    let mut i: usize = 0;
    proof {
        reveal(Seq::filter);
        assert(value@.take(0).filter(keep) =~= Seq::<char>::empty());
    }
    while i < chars.len()
        invariant
            chars@ == value@,
            i <= chars@.len(),
            keep == (|c: char| c != '-'),
            kept@ == value@.take(i as int).filter(keep),
        decreases chars@.len() - i,
    {
        if chars[i] != '-' {
            kept.push(chars[i]);
        }
        proof {
            assert(value@.take(i + 1) =~= value@.take(i as int).push(value@[i as int]));
            value@.take(i as int).lemma_filter_push(value@[i as int], keep);
        }
        i += 1;
    }
    assert(value@.take(i as int) =~= value@);
    if kept.len() != 32 {
        return Err(CatalogError::InvalidId);
    }
    let mut id: [u8; 16] = [0u8; 16];
    let mut k: usize = 0;
    while k < 16
        invariant
            k <= 16,
            kept@ == compact(value@),
            kept@.len() == 32,
            forall|j: int| 0 <= j < 2 * k ==> is_hex(#[trigger] kept@[j]),
            forall|j: int| 0 <= j < k ==> #[trigger] id@[j] == id_of(value@)[j],
        decreases 16 - k,
    {
        let high = match digit(kept[2 * k]) {
            Some(v) => v,
            None => return Err(CatalogError::InvalidId),
        };
        let low = match digit(kept[2 * k + 1]) {
            Some(v) => v,
            None => return Err(CatalogError::InvalidId),
        };
        id[k] = high * 16 + low;
        k += 1;
    }
    assert(id@ =~= id_of(value@));
    Ok(id)
}

/// The lower-case hexadecimal digit of a value below 16.
pub open spec fn hex_char(v: int) -> char {
    if v < 10 {
        ('0' as int + v) as char
    } else {
        ('a' as int + v - 10) as char
    }
}

/// The canonical spelling of a message ID.
pub open spec fn spelled(id: Seq<u8>) -> Seq<char> {
    Seq::new(2 * id.len(), |i: int| if i % 2 == 0 {
        hex_char(id[i / 2] as int / 16)
    } else {
        hex_char(id[i / 2] as int % 16)
    })
}

fn hex_digit(v: u8) -> (r: char)
    requires
        v < 16,
    ensures
        r == hex_char(v as int),
{
    if v < 10 {
        (48u8 + v) as char
    } else {
        (97u8 + (v - 10)) as char
    }
}

/// Render a message ID in the canonical lower-case 32-hex form.
pub fn format_id(id: &[u8; 16]) -> (r: String)
    ensures
        r@ == spelled(id@),
{
    let mut out = String::new();
    let mut i: usize = 0;
    while i < 16
        invariant
            i <= 16,
            out@ == spelled(id@).take(2 * i),
        decreases 16 - i,
    {
        out.push(hex_digit(id[i] / 16));
        out.push(hex_digit(id[i] % 16));
        assert(spelled(id@).take(2 * (i + 1)) =~= spelled(id@).take(2 * i).push(spelled(id@)[2 * i]).push(spelled(id@)[2 * i + 1]));
        i += 1;
    }
    assert(spelled(id@).take(32) =~= spelled(id@));
    out
}

/// Rendering a message ID and parsing it again gives it back.
pub proof fn law_id_round_trip(id: Seq<u8>)
    requires
        id.len() == 16,
    ensures
        is_id(spelled(id)),
        id_of(spelled(id)) == id,
{
    let s = spelled(id);
    let keep = |c: char| c != '-';
    assert forall|i: int| 0 <= i < s.len() implies keep(#[trigger] s[i]) && is_hex(s[i]) && hex_value(s[i]) == (if i % 2 == 0 {
        id[i / 2] as int / 16
    } else {
        id[i / 2] as int % 16
    }) by {}
    lemma_filter_keeps(s, keep);
    assert(compact(s) == s);
    assert forall|i: int| 0 <= i < 16 implies #[trigger] id_of(s)[i] == id[i] by {
        assert(hex_value(s[2 * i]) == id[i] as int / 16);
        assert(hex_value(s[2 * i + 1]) == id[i] as int % 16);
    }
    assert(id_of(s) =~= id);
}

proof fn lemma_filter_keeps<A>(s: Seq<A>, p: spec_fn(A) -> bool)
    requires
        forall|i: int| 0 <= i < s.len() ==> p(#[trigger] s[i]),
    ensures
        s.filter(p) == s,
    decreases s.len(),
{
    reveal(Seq::filter);
    if s.len() > 0 {
        lemma_filter_keeps(s.drop_last(), p);
        assert(s =~= s.drop_last().push(s.last()));
    }
}

/// Lexicographic order of byte strings.
pub open spec fn bytes_lt(a: Seq<u8>, b: Seq<u8>) -> bool
    decreases a.len(),
{
    if b.len() == 0 {
        false
    } else if a.len() == 0 {
        true
    } else if a[0] != b[0] {
        a[0] < b[0]
    } else {
        bytes_lt(a.drop_first(), b.drop_first())
    }
}

pub(crate) fn bytes_less(a: &[u8], b: &[u8]) -> (r: bool)
    ensures
        r == bytes_lt(a@, b@),
{
    let mut i: usize = 0;
    proof {
        assert(a@.skip(0) =~= a@);
        assert(b@.skip(0) =~= b@);
    }
    while i < a.len() && i < b.len()
        invariant
            i <= a@.len(),
            i <= b@.len(),
            bytes_lt(a@, b@) == bytes_lt(a@.skip(i as int), b@.skip(i as int)),
        decreases a@.len() - i,
    {
        if a[i] != b[i] {
            return a[i] < b[i];
        }
        proof {
            assert(a@.skip(i as int).drop_first() =~= a@.skip(i + 1));
            assert(b@.skip(i as int).drop_first() =~= b@.skip(i + 1));
        }
        i += 1;
    }
    i < b.len()
}

/// What an entry is filed under: a message ID and a language, empty for the
/// default.
#[derive(Debug)]
pub struct CatalogKey {
    pub id: [u8; 16],
    pub language: String,
}

/// A key by its bytes and characters.
pub struct KeyView {
    pub id: Seq<u8>,
    pub language: Seq<char>,
}

impl View for CatalogKey {
    type V = KeyView;

    open spec fn view(&self) -> KeyView {
        KeyView { id: self.id@, language: self.language@ }
    }
}

impl Clone for CatalogKey {
    fn clone(&self) -> (r: Self)
        ensures
            r == *self,
    {
        CatalogKey { id: self.id, language: self.language.clone() }
    }
}

/// Order of keys: by ID, then by language.
pub open spec fn key_lt(a: KeyView, b: KeyView) -> bool {
    bytes_lt(a.id, b.id) || (a.id == b.id && bytes_lt(encode_utf8(a.language), encode_utf8(b.language)))
}

/// Whether two message IDs are equal.
pub(crate) fn same_id(a: &[u8; 16], b: &[u8; 16]) -> (r: bool)
    ensures
        r == (a@ == b@),
{
    let mut i: usize = 0;
    while i < 16
        invariant
            i <= 16,
            forall|k: int| 0 <= k < i ==> #[trigger] a@[k] == b@[k],
        decreases 16 - i,
    {
        if a[i] != b[i] {
            return false;
        }
        i += 1;
    }
    assert(a@ =~= b@);
    true
}

pub(crate) fn key_less(a: &CatalogKey, b: &CatalogKey) -> (r: bool)
    ensures
        r == key_lt(a@, b@),
{
    if bytes_less(&a.id, &b.id) {
        true
    } else if same_id(&a.id, &b.id) {
        bytes_less(a.language.as_str().as_bytes(), b.language.as_str().as_bytes())
    } else {
        false
    }
}

/// One catalog entry.
#[derive(Debug)]
pub struct CatalogRecord {
    pub key: CatalogKey,
    pub text: String,
}

/// An entry by its views.
pub struct RecordView {
    pub key: KeyView,
    pub text: Seq<char>,
}

impl View for CatalogRecord {
    type V = RecordView;

    open spec fn view(&self) -> RecordView {
        RecordView { key: self.key@, text: self.text@ }
    }
}

/// Entries by their views.
pub open spec fn record_views(records: Seq<CatalogRecord>) -> Seq<RecordView> {
    records.map_values(|record: CatalogRecord| record@)
}

/// The bytes that a database begins with.
pub open spec fn signature() -> Seq<u8> {
    seq![82u8, 72u8, 72u8, 72u8, 75u8, 83u8, 76u8, 80u8]
}

/// The little-endian 32-bit integer at `at`.
pub open spec fn u32_at(bytes: Seq<u8>, at: int) -> u32 {
    spec_u32_from_le_bytes(bytes.subrange(at, at + 4))
}

/// The little-endian 64-bit integer at `at`.
pub open spec fn u64_at(bytes: Seq<u8>, at: int) -> u64 {
    spec_u64_from_le_bytes(bytes.subrange(at, at + 8))
}

/// Read a little-endian 32-bit integer.
pub fn read_u32(bytes: &[u8], offset: usize) -> (r: Result<u32, CatalogError>)
    ensures
        match r {
            Ok(v) => offset + 4 <= bytes@.len() && v == u32_at(bytes@, offset as int),
            Err(error) => bytes@.len() < offset + 4 && error == (if offset + 4 > usize::MAX {
                CatalogError::IntegerOverflows
            } else {
                CatalogError::TruncatedInteger
            }),
        },
{
    let length: usize = bytes.len();
    let end = match offset.checked_add(4) {
        Some(end) => end,
        None => return Err(CatalogError::IntegerOverflows),
    };
    if end > length {
        return Err(CatalogError::TruncatedInteger);
    }
    Ok(vstd::bytes::u32_from_le_bytes(vstd::slice::slice_subrange(bytes, offset, end)))
}

/// Read a little-endian 64-bit integer.
pub fn read_u64(bytes: &[u8], offset: usize) -> (r: Result<u64, CatalogError>)
    ensures
        match r {
            Ok(v) => offset + 8 <= bytes@.len() && v == u64_at(bytes@, offset as int),
            Err(error) => bytes@.len() < offset + 8 && error == (if offset + 8 > usize::MAX {
                CatalogError::IntegerOverflows
            } else {
                CatalogError::TruncatedInteger
            }),
        },
{
    let length: usize = bytes.len();
    let end = match offset.checked_add(8) {
        Some(end) => end,
        None => return Err(CatalogError::IntegerOverflows),
    };
    if end > length {
        return Err(CatalogError::TruncatedInteger);
    }
    Ok(vstd::bytes::u64_from_le_bytes(vstd::slice::slice_subrange(bytes, offset, end)))
}

/// A size as a number of bytes in memory.
pub fn to_usize(value: u64) -> (r: Result<usize, CatalogError>)
    ensures
        match r {
            Ok(v) => v == value,
            Err(error) => value > usize::MAX && error == CatalogError::DoesNotFit,
        },
{
    if value > usize::MAX as u64 {
        Err(CatalogError::DoesNotFit)
    } else {
        Ok(value as usize)
    }
}

/// The item at `at`, whose string is counted from `strings`.
pub open spec fn item(bytes: Seq<u8>, at: int, strings: int) -> Result<RecordView, CatalogError> {
    let field = bytes.subrange(at + 16, at + 48);
    let language = field.take(text::find(field, 0u8));
    let offset = u64_at(bytes, at + 48);
    let tail = bytes.skip(strings + offset);
    let payload = tail.take(text::find(tail, 0u8));
    if !valid_utf8(language) {
        Err(CatalogError::InvalidLanguage)
    } else if language.len() > 31 {
        Err(CatalogError::LanguageTooLong)
    } else if offset > usize::MAX {
        Err(CatalogError::DoesNotFit)
    } else if strings + offset > usize::MAX {
        Err(CatalogError::OffsetOverflows)
    } else if strings + offset >= bytes.len() {
        Err(CatalogError::OffsetOutOfBounds)
    } else if !tail.contains(0u8) {
        Err(CatalogError::UnterminatedString)
    } else if !valid_utf8(payload) {
        Err(CatalogError::InvalidText)
    } else {
        Ok(RecordView { key: KeyView { id: bytes.subrange(at, at + 16), language: decode_utf8(language) }, text: decode_utf8(payload) })
    }
}

/// The first `n` items of a table; each must come after the one before it.
pub open spec fn items(bytes: Seq<u8>, table: int, size: int, strings: int, n: int) -> Result<Seq<RecordView>, CatalogError>
    decreases n,
{
    if n <= 0 {
        Ok(seq![])
    } else {
        match items(bytes, table, size, strings, n - 1) {
            Err(error) => Err(error),
            Ok(before) => match item(bytes, table + (n - 1) * size, strings) {
                Err(error) => Err(error),
                Ok(record) => if before.len() > 0 && !key_lt(before.last().key, record.key) {
                    Err(CatalogError::Unsorted)
                } else {
                    Ok(before.push(record))
                },
            },
        }
    }
}

/// What a database holds.
pub open spec fn decode(bytes: Seq<u8>) -> Result<Seq<RecordView>, CatalogError> {
    let header_size = u64_at(bytes, 16);
    let n_items = u64_at(bytes, 24);
    let item_size = u64_at(bytes, 32);
    let strings = header_size + item_size * n_items;
    if bytes.len() < HEADER_SIZE || bytes.take(8) != signature() {
        Err(CatalogError::InvalidHeader)
    } else if header_size > usize::MAX || n_items > usize::MAX || item_size > usize::MAX {
        Err(CatalogError::DoesNotFit)
    } else if u32_at(bytes, 12) != 0 || header_size < HEADER_SIZE || item_size < ITEM_SIZE || n_items == 0 {
        Err(CatalogError::UnsupportedHeader)
    } else if strings > usize::MAX {
        Err(CatalogError::TableOverflows)
    } else if strings > bytes.len() {
        Err(CatalogError::TruncatedTable)
    } else {
        items(bytes, header_size as int, item_size as int, strings, n_items as int)
    }
}

/// Parsed binary message catalog.
#[derive(Debug)]
pub struct CatalogDatabase {
    records: Vec<CatalogRecord>,
}

impl View for CatalogDatabase {
    type V = Seq<RecordView>;

    closed spec fn view(&self) -> Seq<RecordView> {
        record_views(self.records@)
    }
}

fn has_signature(bytes: &[u8]) -> (r: bool)
    requires
        bytes@.len() >= 8,
    ensures
        r == (bytes@.take(8) == signature()),
{
    let r = bytes[0] == 82 && bytes[1] == 72 && bytes[2] == 72 && bytes[3] == 72 && bytes[4] == 75 && bytes[5] == 83 && bytes[6] == 76 && bytes[7] == 80;
    proof {
        let s = signature();
        let b = bytes@.take(8);
        if r {
            assert(b =~= s);
        } else {
            if b == s {
                assert(forall|i: int| 0 <= i < 8 ==> #[trigger] b[i] == s[i] && b[i] == bytes@[i]);
                assert(b[0] == 82 && b[1] == 72 && b[2] == 72 && b[3] == 72 && b[4] == 75 && b[5] == 83 && b[6] == 76 && b[7] == 80);
            }
        }
    }
    r
}

/// Read the item at `at`.
fn read_item(bytes: &[u8], at: usize, strings: usize) -> (r: Result<CatalogRecord, CatalogError>)
    requires
        at + ITEM_SIZE <= strings <= bytes@.len(),
    ensures
        match r {
            Ok(record) => item(bytes@, at as int, strings as int) == Ok::<RecordView, CatalogError>(record@),
            Err(error) => item(bytes@, at as int, strings as int) == Err::<RecordView, CatalogError>(error),
        },
{
    let mut id: [u8; 16] = [0u8; 16];
    let mut k: usize = 0;
    while k < 16
        invariant
            k <= 16,
            at + ITEM_SIZE <= strings <= bytes.len(),
            forall|j: int| 0 <= j < k ==> #[trigger] id@[j] == bytes@[at + j],
        decreases 16 - k,
    {
        id[k] = bytes[at + k];
        k += 1;
    }
    assert(id@ =~= bytes@.subrange(at as int, at + 16));
    let field = vstd::slice::slice_subrange(bytes, at + 16, at + 48);
    let end = text::find_byte(field, 0, 0);
    proof {
        assert(field@.skip(0) =~= field@);
        assert(field@.subrange(0, end as int) =~= field@.take(end as int));
    }
    let language = match text::from_utf8(vstd::slice::slice_subrange(field, 0, end)) {
        Some(language) => language.to_owned(),
        None => return Err(CatalogError::InvalidLanguage),
    };
    if end > 31 {
        return Err(CatalogError::LanguageTooLong);
    }
    let offset = match read_u64(bytes, at + 48) {
        Ok(raw) => match to_usize(raw) {
            Ok(offset) => offset,
            Err(error) => return Err(error),
        },
        Err(error) => return Err(error),
    };
    let start = match strings.checked_add(offset) {
        Some(start) => start,
        None => return Err(CatalogError::OffsetOverflows),
    };
    if start >= bytes.len() {
        return Err(CatalogError::OffsetOutOfBounds);
    }
    let stop = text::find_byte(bytes, start, 0);
    proof {
        text::lemma_find(bytes@.skip(start as int), 0u8);
        assert(bytes@.subrange(start as int, stop as int) =~= bytes@.skip(start as int).take(stop - start));
    }
    if stop >= bytes.len() {
        return Err(CatalogError::UnterminatedString);
    }
    let payload = match text::from_utf8(vstd::slice::slice_subrange(bytes, start, stop)) {
        Some(payload) => payload.to_owned(),
        None => return Err(CatalogError::InvalidText),
    };
    Ok(CatalogRecord { key: CatalogKey { id, language }, text: payload })
}

impl CatalogDatabase {
    /// Validate a binary catalog database and read its entries.
    pub fn open(bytes: &[u8]) -> (r: Result<CatalogDatabase, CatalogError>)
        ensures
            match r {
                Ok(database) => decode(bytes@) == Ok::<Seq<RecordView>, CatalogError>(database@),
                Err(error) => decode(bytes@) == Err::<Seq<RecordView>, CatalogError>(error),
            },
    {
        if bytes.len() < HEADER_SIZE || !has_signature(bytes) {
            return Err(CatalogError::InvalidHeader);
        }
        let incompatible = match read_u32(bytes, 12) {
            Ok(v) => v,
            Err(error) => return Err(error),
        };
        let header_size = match read_u64(bytes, 16) {
            Ok(raw) => match to_usize(raw) {
                Ok(v) => v,
                Err(error) => return Err(error),
            },
            Err(error) => return Err(error),
        };
        let n_items = match read_u64(bytes, 24) {
            Ok(raw) => match to_usize(raw) {
                Ok(v) => v,
                Err(error) => return Err(error),
            },
            Err(error) => return Err(error),
        };
        let item_size = match read_u64(bytes, 32) {
            Ok(raw) => match to_usize(raw) {
                Ok(v) => v,
                Err(error) => return Err(error),
            },
            Err(error) => return Err(error),
        };
        if incompatible != 0 || header_size < HEADER_SIZE || item_size < ITEM_SIZE || n_items == 0 {
            return Err(CatalogError::UnsupportedHeader);
        }
        let table = match item_size.checked_mul(n_items) {
            Some(size) => size,
            None => return Err(CatalogError::TableOverflows),
        };
        let strings = match header_size.checked_add(table) {
            Some(size) => size,
            None => return Err(CatalogError::TableOverflows),
        };
        if strings > bytes.len() {
            return Err(CatalogError::TruncatedTable);
        }
        let mut records: Vec<CatalogRecord> = Vec::new();
        let mut index: usize = 0;
        assert(record_views(records@) =~= Seq::<RecordView>::empty());
        while index < n_items
            invariant
                index <= n_items,
                item_size >= ITEM_SIZE,
                header_size + item_size * n_items == strings,
                strings <= bytes.len(),
                bytes@.len() == bytes.len(),
                items(bytes@, header_size as int, item_size as int, strings as int, index as int) == Ok::<Seq<RecordView>, CatalogError>(record_views(records@)),
                decode(bytes@) == items(bytes@, header_size as int, item_size as int, strings as int, n_items as int),
            decreases n_items - index,
        {
            proof {
                assert(index * item_size + item_size <= n_items * item_size) by (nonlinear_arith)
                    requires
                        index + 1 <= n_items,
                        item_size >= 0,
                ;
                assert(n_items * item_size == item_size * n_items) by (nonlinear_arith);
            }
            let ghost before = record_views(records@);
            let at: usize = header_size + index * item_size;
            let record = match read_item(bytes, at, strings) {
                Ok(record) => record,
                Err(error) => {
                    proof {
                        lemma_items_fail(bytes@, header_size as int, item_size as int, strings as int, index + 1, n_items as int);
                    }
                    return Err(error);
                },
            };
            if records.len() > 0 && !key_less(&records[records.len() - 1].key, &record.key) {
                proof {
                    assert(before.last() == records@[records@.len() - 1]@);
                    lemma_items_fail(bytes@, header_size as int, item_size as int, strings as int, index + 1, n_items as int);
                }
                return Err(CatalogError::Unsorted);
            }
            proof {
                if records@.len() > 0 {
                    assert(before.last() == records@[records@.len() - 1]@);
                }
            }
            records.push(record);
            assert(record_views(records@) =~= before.push(record@));
            index += 1;
        }
        Ok(CatalogDatabase { records })
    }
}

/// A failure at one item is the failure of every longer table.
proof fn lemma_items_fail(bytes: Seq<u8>, table: int, size: int, strings: int, k: int, n: int)
    requires
        0 <= k <= n,
        items(bytes, table, size, strings, k) is Err,
    ensures
        items(bytes, table, size, strings, n) == items(bytes, table, size, strings, k),
    decreases n,
{
    if k < n {
        lemma_items_fail(bytes, table, size, strings, k, n - 1);
    }
}

/// The header of a database with `n` items.
pub open spec fn header(n: int) -> Seq<u8> {
    signature() + spec_u32_to_le_bytes(0) + spec_u32_to_le_bytes(0) + spec_u64_to_le_bytes(40) + spec_u64_to_le_bytes(n as u64) + spec_u64_to_le_bytes(56)
}

/// A text and the zero byte that ends it.
pub open spec fn terminated(s: Seq<char>) -> Seq<u8> {
    encode_utf8(s).push(0u8)
}

/// The strings of the first `n` entries, one after the other.
pub open spec fn strings_of(records: Seq<RecordView>, n: int) -> Seq<u8>
    decreases n,
{
    if n <= 0 {
        seq![]
    } else {
        strings_of(records, n - 1) + terminated(records[n - 1].text)
    }
}

/// A language padded with zero bytes to the size of its field.
pub open spec fn padded(language: Seq<char>) -> Seq<u8> {
    encode_utf8(language) + Seq::new((32 - encode_utf8(language).len()) as nat, |i: int| 0u8)
}

/// One entry of the item table.
pub open spec fn item_bytes(key: KeyView, offset: int) -> Seq<u8> {
    key.id + padded(key.language) + spec_u64_to_le_bytes(offset as u64)
}

/// The item table of the first `n` entries.
pub open spec fn table_of(records: Seq<RecordView>, n: int) -> Seq<u8>
    decreases n,
{
    if n <= 0 {
        seq![]
    } else {
        table_of(records, n - 1) + item_bytes(records[n - 1].key, strings_of(records, n - 1).len() as int)
    }
}

/// The database that holds the given entries.
pub open spec fn encode(records: Seq<RecordView>) -> Seq<u8> {
    let n = records.len() as int;
    header(n) + table_of(records, n) + strings_of(records, n)
}

/// Whether an entry's language fits in its field.
pub open spec fn language_fits(record: RecordView) -> bool {
    encode_utf8(record.key.language).len() <= 31
}

fn push_bytes(out: &mut Vec<u8>, bytes: &[u8])
    ensures
        final(out)@ == old(out)@ + bytes@,
{
    let ghost before = out@;
    let mut i: usize = 0;
    assert(before + bytes@.take(0) =~= before);
    while i < bytes.len()
        invariant
            i <= bytes@.len(),
            out@ == before + bytes@.take(i as int),
        decreases bytes@.len() - i,
    {
        out.push(bytes[i]);
        assert(before + bytes@.take(i + 1) =~= (before + bytes@.take(i as int)).push(bytes@[i as int]));
        i += 1;
    }
    assert(bytes@.take(i as int) =~= bytes@);
}

/// Write a binary database.
///
/// Fails when a language does not fit in its field.
pub fn encode_database(records: &Vec<CatalogRecord>) -> (r: Result<Vec<u8>, CatalogError>)
    ensures
        match r {
            Ok(bytes) => bytes@ == encode(record_views(records@)) && forall|i: int| 0 <= i < records@.len() ==> language_fits((#[trigger] records@[i])@),
            Err(error) => error == CatalogError::LanguageTooLong && exists|i: int| 0 <= i < records@.len() && !language_fits((#[trigger] records@[i])@),
        },
{
    let ghost views = record_views(records@);
    let mut out: Vec<u8> = Vec::new();
    out.push(82);
    out.push(72);
    out.push(72);
    out.push(72);
    out.push(75);
    out.push(83);
    out.push(76);
    out.push(80);
    assert(out@ =~= signature());
    push_bytes(&mut out, &vstd::bytes::u32_to_le_bytes(0));
    push_bytes(&mut out, &vstd::bytes::u32_to_le_bytes(0));
    push_bytes(&mut out, &vstd::bytes::u64_to_le_bytes(HEADER_SIZE as u64));
    push_bytes(&mut out, &vstd::bytes::u64_to_le_bytes(records.len() as u64));
    push_bytes(&mut out, &vstd::bytes::u64_to_le_bytes(ITEM_SIZE as u64));
    let ghost head = header(views.len() as int);
    assert(out@ == head);
    let mut strings: Vec<u8> = Vec::new();
    let mut i: usize = 0;
    proof {
        assert(head + table_of(views, 0) =~= head);
        assert(strings@ =~= strings_of(views, 0));
    }
    while i < records.len()
        invariant
            i <= records@.len(),
            views == record_views(records@),
            out@ == head + table_of(views, i as int),
            strings@ == strings_of(views, i as int),
            forall|k: int| 0 <= k < i ==> language_fits((#[trigger] records@[k])@),
        decreases records@.len() - i,
    {
        let record = &records[i];
        let language = record.key.language.as_str().as_bytes();
        if language.len() > 31 {
            assert(!language_fits(records@[i as int]@));
            return Err(CatalogError::LanguageTooLong);
        }
        let ghost before = out@;
        push_bytes(&mut out, &record.key.id);
        push_bytes(&mut out, language);
        let ghost unpadded = out@;
        let mut k: usize = language.len();
        assert(out@ =~= unpadded + Seq::new(0, |i: int| 0u8));
        while k < LANGUAGE_SIZE
            invariant
                language@.len() <= k <= 32,
                out@ == unpadded + Seq::new((k - language@.len()) as nat, |i: int| 0u8),
            decreases 32 - k,
        {
            out.push(0);
            assert(Seq::new((k + 1 - language@.len()) as nat, |i: int| 0u8) =~= Seq::new((k - language@.len()) as nat, |i: int| 0u8).push(0u8));
            k += 1;
        }
        push_bytes(&mut out, &vstd::bytes::u64_to_le_bytes(strings.len() as u64));
        push_bytes(&mut strings, record.text.as_str().as_bytes());
        strings.push(0);
        proof {
            let key = views[i as int].key;
            assert(key == record.key@);
            let offset = strings_of(views, i as int).len() as int;
            assert(out@ =~= before + item_bytes(key, offset));
            assert(out@ =~= head + table_of(views, i + 1));
            assert(strings@ =~= strings_of(views, i + 1));
        }
        i += 1;
    }
    push_bytes(&mut out, strings.as_slice());
    Ok(out)
}

/// Whether entries can be stored and found again: they are in ascending order,
/// each once; IDs are 16 bytes; languages fit their field; and neither
/// languages nor texts hold a zero byte, which would end them.
pub open spec fn storable(records: Seq<RecordView>) -> bool {
    &&& forall|i: int| 0 <= i < records.len() ==> {
        &&& (#[trigger] records[i]).key.id.len() == 16
        &&& language_fits(records[i])
        &&& !encode_utf8(records[i].key.language).contains(0u8)
        &&& !encode_utf8(records[i].text).contains(0u8)
    }
    &&& ascending(records)
}

/// Whether entries are in ascending order of their keys, each key once.
pub open spec fn ascending(records: Seq<RecordView>) -> bool {
    forall|i: int, j: int| 0 <= i < j < records.len() ==> key_lt((#[trigger] records[i]).key, (#[trigger] records[j]).key)
}

proof fn lemma_table_len(records: Seq<RecordView>, n: int)
    requires
        0 <= n <= records.len(),
        storable(records),
    ensures
        table_of(records, n).len() == 56 * n,
    decreases n,
{
    if n > 0 {
        lemma_table_len(records, n - 1);
        assert(records[n - 1].key.id.len() == 16);
        vstd::bytes::lemma_auto_spec_u64_to_from_le_bytes();
        assert(item_bytes(records[n - 1].key, strings_of(records, n - 1).len() as int).len() == 56);
    }
}

proof fn lemma_table_item(records: Seq<RecordView>, n: int, i: int)
    requires
        0 <= i < n <= records.len(),
        storable(records),
    ensures
        table_of(records, n).len() == 56 * n,
        table_of(records, n).subrange(56 * i, 56 * i + 56) == item_bytes(records[i].key, strings_of(records, i).len() as int),
    decreases n,
{
    lemma_table_len(records, n);
    lemma_table_len(records, n - 1);
    let shorter = table_of(records, n - 1);
    let last = item_bytes(records[n - 1].key, strings_of(records, n - 1).len() as int);
    if i < n - 1 {
        lemma_table_item(records, n - 1, i);
        assert(table_of(records, n).subrange(56 * i, 56 * i + 56) =~= shorter.subrange(56 * i, 56 * i + 56));
    } else {
        assert(table_of(records, n).subrange(56 * i, 56 * i + 56) =~= last);
    }
}

proof fn lemma_strings_at(records: Seq<RecordView>, n: int, i: int)
    requires
        0 <= i < n <= records.len(),
    ensures
        strings_of(records, i).len() + terminated(records[i].text).len() <= strings_of(records, n).len(),
        strings_of(records, n).subrange(strings_of(records, i).len() as int, (strings_of(records, i).len() + terminated(records[i].text).len()) as int) == terminated(records[i].text),
    decreases n,
{
    let from = strings_of(records, i).len() as int;
    let to = from + terminated(records[i].text).len();
    if i < n - 1 {
        lemma_strings_at(records, n - 1, i);
        assert(strings_of(records, n).subrange(from, to) =~= strings_of(records, n - 1).subrange(from, to));
    } else {
        assert(strings_of(records, n).subrange(from, to) =~= terminated(records[i].text));
    }
}

/// Where a sequence is followed by an element that it does not hold, that is
/// where the element is found.
proof fn lemma_find_after<T>(s: Seq<T>, c: T, whole: Seq<T>)
    requires
        !s.contains(c),
        s.len() < whole.len(),
        whole.take(s.len() as int) == s,
        whole[s.len() as int] == c,
    ensures
        text::find(whole, c) == s.len(),
        whole.take(text::find(whole, c)) == s,
        whole.contains(c),
{
    assert forall|i: int| 0 <= i < s.len() implies #[trigger] whole[i] != c by {
        assert(whole.take(s.len() as int)[i] == whole[i]);
        assert(s.contains(s[i]));
    }
    text::lemma_find_is(whole, c, s.len() as int);
}

/// Where the parts of a database stand.
proof fn lemma_layout(records: Seq<RecordView>)
    requires
        storable(records),
    ensures
        header(records.len() as int).len() == 40,
        table_of(records, records.len() as int).len() == 56 * records.len(),
        encode(records).len() == 40 + 56 * records.len() + strings_of(records, records.len() as int).len(),
{
    vstd::bytes::lemma_auto_spec_u32_to_from_le_bytes();
    vstd::bytes::lemma_auto_spec_u64_to_from_le_bytes();
    lemma_table_len(records, records.len() as int);
}

/// The fields of the item that was written.
proof fn lemma_item_fields(records: Seq<RecordView>, i: int)
    requires
        0 <= i < records.len(),
        storable(records),
        encode(records).len() <= usize::MAX,
    ensures
        encode(records).subrange(40 + i * 56, 40 + i * 56 + 16) == records[i].key.id,
        encode(records).subrange(40 + i * 56 + 16, 40 + i * 56 + 48) == padded(records[i].key.language),
        u64_at(encode(records), 40 + i * 56 + 48) == strings_of(records, i).len(),
{
    let n = records.len() as int;
    let bytes = encode(records);
    let key = records[i].key;
    let at = 40 + i * 56;
    lemma_layout(records);
    lemma_table_item(records, n, i);
    lemma_strings_at(records, n, i);
    let offset = strings_of(records, i).len() as int;
    let entry = item_bytes(key, offset);
    let found = bytes.subrange(at, at + 56);
    assert(found =~= table_of(records, n).subrange(56 * i, 56 * i + 56));
    assert(found == entry);
    vstd::bytes::lemma_auto_spec_u64_to_from_le_bytes();
    assert(key.id.len() == 16 && padded(key.language).len() == 32);
    assert(found.subrange(0, 16) =~= key.id);
    assert(found.subrange(16, 48) =~= padded(key.language));
    assert(found.subrange(48, 56) =~= spec_u64_to_le_bytes(offset as u64));
    assert(bytes.subrange(at, at + 16) =~= found.subrange(0, 16));
    assert(bytes.subrange(at + 16, at + 48) =~= found.subrange(16, 48));
    assert(bytes.subrange(at + 48, at + 48 + 8) =~= found.subrange(48, 56));
}

/// A terminated string is found where it stands.
proof fn lemma_string_found(front: Seq<u8>, texts: Seq<u8>, offset: int, payload: Seq<u8>)
    requires
        0 <= offset,
        offset + payload.len() + 1 <= texts.len(),
        texts.subrange(offset, offset + payload.len() + 1) == payload.push(0u8),
        !payload.contains(0u8),
    ensures
        ({
            let tail = (front + texts).skip(front.len() + offset);
            &&& tail.contains(0u8)
            &&& tail.take(text::find(tail, 0u8)) == payload
        }),
{
    let whole = payload.push(0u8);
    let tail = (front + texts).skip(front.len() + offset);
    assert(tail.take(whole.len() as int) =~= texts.subrange(offset, offset + whole.len()));
    assert(tail[payload.len() as int] == tail.take(whole.len() as int)[payload.len() as int]);
    assert(tail.take(payload.len() as int) =~= payload) by {
        assert forall|k: int| 0 <= k < payload.len() implies tail[k] == payload[k] by {
            assert(tail.take(whole.len() as int)[k] == whole[k]);
        }
    }
    lemma_find_after(payload, 0u8, tail);
}

/// The text of the item that was written.
proof fn lemma_item_text(records: Seq<RecordView>, i: int)
    requires
        0 <= i < records.len(),
        storable(records),
    ensures
        ({
            let tail = encode(records).skip((40 + 56 * records.len() + strings_of(records, i).len()) as int);
            &&& 40 + 56 * records.len() + strings_of(records, i).len() < encode(records).len()
            &&& tail.contains(0u8)
            &&& tail.take(text::find(tail, 0u8)) == encode_utf8(records[i].text)
        }),
{
    let n = records.len() as int;
    let front = header(n) + table_of(records, n);
    let texts = strings_of(records, n);
    lemma_layout(records);
    lemma_strings_at(records, n, i);
    assert(encode(records) == front + texts);
    assert(front.len() == 40 + 56 * n);
    assert(!encode_utf8(records[i].text).contains(0u8));
    lemma_string_found(front, texts, strings_of(records, i).len() as int, encode_utf8(records[i].text));
}

/// The item that was written is the item that is read.
proof fn lemma_item_round_trip(records: Seq<RecordView>, i: int)
    requires
        0 <= i < records.len(),
        storable(records),
        encode(records).len() <= usize::MAX,
    ensures
        item(encode(records), 40 + i * 56, (40 + 56 * records.len()) as int) == Ok::<RecordView, CatalogError>(records[i]),
{
    let record = records[i];
    lemma_item_fields(records, i);
    lemma_item_text(records, i);
    let field = padded(record.key.language);
    let language = encode_utf8(record.key.language);
    assert(language_fits(record) && !language.contains(0u8));
    assert(field.take(language.len() as int) =~= language);
    assert(field[language.len() as int] == 0u8);
    lemma_find_after(language, 0u8, field);
    vstd::utf8::encode_utf8_valid_utf8(record.key.language);
    vstd::utf8::encode_utf8_decode_utf8(record.key.language);
    vstd::utf8::encode_utf8_valid_utf8(record.text);
    vstd::utf8::encode_utf8_decode_utf8(record.text);
}

proof fn lemma_items_round_trip(records: Seq<RecordView>, k: int)
    requires
        0 <= k <= records.len(),
        storable(records),
        encode(records).len() <= usize::MAX,
    ensures
        items(encode(records), 40, 56, (40 + 56 * records.len()) as int, k) == Ok::<Seq<RecordView>, CatalogError>(records.take(k)),
    decreases k,
{
    if k > 0 {
        lemma_items_round_trip(records, k - 1);
        lemma_item_round_trip(records, k - 1);
        assert(records.take(k) =~= records.take(k - 1).push(records[k - 1]));
        if k > 1 {
            assert(records.take(k - 1).last() == records[k - 2]);
            assert(key_lt(records[k - 2].key, records[k - 1].key));
        }
    } else {
        assert(records.take(0) =~= Seq::<RecordView>::empty());
    }
}

/// Reading a database gives back the entries that were written to it.
pub proof fn law_database_round_trip(records: Seq<RecordView>)
    requires
        records.len() > 0,
        storable(records),
        encode(records).len() <= usize::MAX,
    ensures
        decode(encode(records)) == Ok::<Seq<RecordView>, CatalogError>(records),
{
    let n = records.len() as int;
    let bytes = encode(records);
    let head = header(n);
    vstd::bytes::lemma_auto_spec_u32_to_from_le_bytes();
    vstd::bytes::lemma_auto_spec_u64_to_from_le_bytes();
    lemma_table_len(records, n);
    assert(head.len() == 40);
    assert(bytes.len() == 40 + 56 * n + strings_of(records, n).len());
    assert(bytes.take(8) =~= signature());
    assert(bytes.subrange(12, 16) =~= spec_u32_to_le_bytes(0));
    assert(bytes.subrange(16, 24) =~= spec_u64_to_le_bytes(40));
    assert(bytes.subrange(24, 32) =~= spec_u64_to_le_bytes(n as u64));
    assert(bytes.subrange(32, 40) =~= spec_u64_to_le_bytes(56));
    assert(u64_at(bytes, 24) == n);
    lemma_items_round_trip(records, n);
    assert(records.take(n) =~= records);
}

/// The message IDs of the first `n` entries, repetitions next to each other
/// left out.
pub open spec fn ids_of(records: Seq<RecordView>, n: int) -> Seq<Seq<u8>>
    decreases n,
{
    if n <= 0 {
        seq![]
    } else {
        let before = ids_of(records, n - 1);
        if before.len() > 0 && before.last() == records[n - 1].key.id {
            before
        } else {
            before.push(records[n - 1].key.id)
        }
    }
}

/// Message IDs by their bytes.
pub open spec fn id_views(ids: Seq<[u8; 16]>) -> Seq<Seq<u8>> {
    ids.map_values(|id: [u8; 16]| id@)
}

/// The text of the first entry with the given ID and language.
pub open spec fn text_of(records: Seq<RecordView>, key: KeyView) -> Option<Seq<char>>
    decreases records.len(),
{
    if records.len() == 0 {
        None
    } else if records[0].key.id == key.id && records[0].key.language == key.language {
        Some(records[0].text)
    } else {
        text_of(records.drop_first(), key)
    }
}

/// A locale's name without its codeset and modifier.
pub open spec fn locale_stem(locale: Seq<char>) -> Seq<char> {
    let dot = text::find(locale, '.');
    let at = text::find(locale, '@');
    if dot < at {
        locale.take(dot)
    } else {
        locale.take(at)
    }
}

/// The language that a locale asks for, if it asks for one.
pub open spec fn locale_language(locale: Option<Seq<char>>) -> Option<Seq<char>> {
    match locale {
        None => None,
        Some(name) => if name.len() == 0 || name == "C"@ || name == "POSIX"@ || locale_stem(name).len() == 0 || encode_utf8(locale_stem(name)).len() > 31 {
            None
        } else {
            Some(locale_stem(name))
        },
    }
}

/// The languages to try for a locale, best first: the language with its
/// territory, the language alone, and the default.
pub open spec fn fallbacks(locale: Option<Seq<char>>) -> Seq<Seq<char>> {
    match locale_language(locale) {
        None => seq![Seq::<char>::empty()],
        Some(language) => if language.contains('_') {
            seq![language, language.take(text::find(language, '_')), Seq::<char>::empty()]
        } else {
            seq![language, Seq::<char>::empty()]
        },
    }
}

/// The text in the first of several languages that has one.
pub open spec fn first_text(records: Seq<RecordView>, id: Seq<u8>, languages: Seq<Seq<char>>) -> Option<Seq<char>>
    decreases languages.len(),
{
    if languages.len() == 0 {
        None
    } else {
        match text_of(records, KeyView { id, language: languages[0] }) {
            Some(t) => Some(t),
            None => first_text(records, id, languages.drop_first()),
        }
    }
}

/// The view of a string slice that may be absent.
pub open spec fn opt_str(s: Option<&str>) -> Option<Seq<char>> {
    match s {
        Some(x) => Some(x@),
        None => None,
    }
}

/// The language that a locale asks for.
pub fn normalize_locale(locale: Option<&str>) -> (r: Option<String>)
    ensures
        text::opt_view(r) == locale_language(opt_str(locale)),
{
    let locale = match locale {
        Some(locale) => locale,
        None => return None,
    };
    if locale.is_empty() || text::same(locale, "C") || text::same(locale, "POSIX") {
        return None;
    }
    let chars = text::chars_of(locale);
    assert(chars@.skip(0) =~= chars@);
    let dot = text::find_from(&chars, 0, '.');
    let at = text::find_from(&chars, 0, '@');
    let end = if dot < at {
        dot
    } else {
        at
    };
    let stem = text::substring(&chars, 0, end);
    assert(stem@ =~= locale_stem(locale@));
    if end == 0 || text::byte_len(stem.as_str()) > 31 {
        return None;
    }
    Some(stem)
}

impl CatalogDatabase {
    /// Return all unique message IDs in database order.
    pub fn ids(&self) -> (r: Vec<[u8; 16]>)
        ensures
            id_views(r@) == ids_of(self@, self@.len() as int),
    {
        let mut ids: Vec<[u8; 16]> = Vec::new();
        let mut i: usize = 0;
        assert(id_views(ids@) =~= Seq::<Seq<u8>>::empty());
        while i < self.records.len()
            invariant
                i <= self.records@.len(),
                id_views(ids@) == ids_of(self@, i as int),
            decreases self.records@.len() - i,
        {
            let ghost before = id_views(ids@);
            let id = self.records[i].key.id;
            assert(self@[i as int].key.id == id@);
            if ids.len() == 0 || !same_id(&ids[ids.len() - 1], &id) {
                proof {
                    if ids@.len() > 0 {
                        assert(before.last() == ids@[ids@.len() - 1]@);
                    }
                }
                ids.push(id);
                assert(id_views(ids@) =~= before.push(id@));
            } else {
                assert(before.last() == ids@[ids@.len() - 1]@);
            }
            i += 1;
        }
        ids
    }

    /// The entry with the given ID and language.
    fn find(&self, id: &[u8; 16], language: &str) -> (r: Option<&str>)
        ensures
            opt_str(r) == text_of(self@, KeyView { id: id@, language: language@ }),
    {
        let ghost key = KeyView { id: id@, language: language@ };
        let mut i: usize = 0;
        assert(self@.skip(0) =~= self@);
        while i < self.records.len()
            invariant
                i <= self.records@.len(),
                key == (KeyView { id: id@, language: language@ }),
                text_of(self@, key) == text_of(self@.skip(i as int), key),
            decreases self.records@.len() - i,
        {
            let record = &self.records[i];
            assert(self@.skip(i as int)[0] == record@);
            if same_id(&record.key.id, id) && text::same(record.key.language.as_str(), language) {
                return Some(record.text.as_str());
            }
            assert(self@.skip(i as int).drop_first() =~= self@.skip(i + 1));
            i += 1;
        }
        None
    }

    /// Look up an ID in the language that the environment asks for messages in.
    pub fn lookup(&self, id: &[u8; 16], lc_all: Option<&str>, lc_messages: Option<&str>, lang: Option<&str>) -> (r: Option<&str>)
        ensures
            opt_str(r) == first_text(self@, id@, fallbacks(first_set(opt_str(lc_all), opt_str(lc_messages), opt_str(lang)))),
    {
        self.lookup_locale(id, current_message_locale(lc_all, lc_messages, lang))
    }

    /// Look up an ID with an explicit locale.
    pub fn lookup_locale(&self, id: &[u8; 16], locale: Option<&str>) -> (r: Option<&str>)
        ensures
            opt_str(r) == first_text(self@, id@, fallbacks(opt_str(locale))),
    {
        let ghost languages = fallbacks(opt_str(locale));
        let ghost none = Seq::<char>::empty();
        proof {
            reveal_with_fuel(first_text, 4);
            reveal_strlit("");
            assert(""@ =~= none);
        }
        match normalize_locale(locale) {
            None => {
                assert(languages.drop_first() =~= Seq::<Seq<char>>::empty());
                self.find(id, "")
            },
            Some(language) => {
                if let Some(found) = self.find(id, language.as_str()) {
                    return Some(found);
                }
                let chars = text::chars_of(language.as_str());
                assert(chars@.skip(0) =~= chars@);
                let end = text::find_from(&chars, 0, '_');
                proof {
                    text::lemma_find(language@, '_');
                }
                if end < chars.len() {
                    let base = text::substring(&chars, 0, end);
                    assert(base@ =~= language@.take(text::find(language@, '_')));
                    assert(languages.drop_first() =~= seq![base@, none]);
                    assert(seq![base@, none].drop_first() =~= seq![none]);
                    if let Some(found) = self.find(id, base.as_str()) {
                        return Some(found);
                    }
                } else {
                    assert(languages.drop_first() =~= seq![none]);
                }
                assert(seq![none].drop_first() =~= Seq::<Seq<char>>::empty());
                self.find(id, "")
            },
        }
    }
}

/// An entry in the language and territory that a locale names wins over one in
/// the language alone, and that over the default entry; a locale that names no
/// language gets the default.
pub proof fn law_lookup_prefers_the_closest_language(records: Seq<RecordView>, id: Seq<u8>, locale: Seq<char>, language: Seq<char>)
    requires
        locale_language(Some(locale)) == Some(language),
    ensures
        text_of(records, KeyView { id, language }) matches Some(t) ==> first_text(records, id, fallbacks(Some(locale))) == Some(t),
        first_text(records, id, fallbacks(Some(locale))) is None ==> text_of(records, KeyView { id, language }) is None && text_of(records, KeyView { id, language: Seq::empty() }) is None,
        !language.contains('_') && text_of(records, KeyView { id, language }) is None ==> first_text(records, id, fallbacks(Some(locale))) == text_of(records, KeyView { id, language: Seq::empty() }),
        first_text(records, id, fallbacks(None)) == text_of(records, KeyView { id, language: Seq::empty() }),
{
    reveal_with_fuel(first_text, 4);
    let none = Seq::<char>::empty();
    let all = fallbacks(Some(locale));
    assert(seq![none].drop_first() =~= Seq::<Seq<char>>::empty());
    if language.contains('_') {
        let base = language.take(text::find(language, '_'));
        assert(all.drop_first() =~= seq![base, none]);
        assert(seq![base, none].drop_first() =~= seq![none]);
    } else {
        assert(all.drop_first() =~= seq![none]);
    }
}

/// The first of three settings that is set and not empty.
pub open spec fn first_set(a: Option<Seq<char>>, b: Option<Seq<char>>, c: Option<Seq<char>>) -> Option<Seq<char>> {
    if a is Some && a->0.len() > 0 {
        a
    } else if b is Some && b->0.len() > 0 {
        b
    } else if c is Some && c->0.len() > 0 {
        c
    } else {
        None
    }
}

/// The locale for messages, from `LC_ALL`, `LC_MESSAGES` and `LANG`.
pub fn current_message_locale<'a>(lc_all: Option<&'a str>, lc_messages: Option<&'a str>, lang: Option<&'a str>) -> (r: Option<&'a str>)
    ensures
        opt_str(r) == first_set(opt_str(lc_all), opt_str(lc_messages), opt_str(lang)),
{
    if let Some(value) = lc_all {
        if !value.is_empty() {
            return Some(value);
        }
    }
    if let Some(value) = lc_messages {
        if !value.is_empty() {
            return Some(value);
        }
    }
    if let Some(value) = lang {
        if !value.is_empty() {
            return Some(value);
        }
    }
    None
}

/// Whether `part` stands at `i`, in upper or lower case.
pub open spec fn caseless_at(s: Seq<char>, part: Seq<char>, i: int) -> bool {
    i + part.len() <= s.len() && forall|k: int| 0 <= k < part.len() ==> text::ascii_upper(#[trigger] s[i + k]) == part[k]
}

/// Whether the name of the UTF-8 codeset stands at `i`.
pub open spec fn utf8_at(s: Seq<char>, i: int) -> bool {
    caseless_at(s, "UTF-8"@, i) || caseless_at(s, "UTF8"@, i)
}

/// Whether a locale's name says that it is a UTF-8 locale.
pub open spec fn names_utf8(locale: Seq<char>) -> bool {
    exists|i: int| 0 <= i <= locale.len() && #[trigger] utf8_at(locale, i)
}

fn caseless(chars: &[char], at: usize, part: &str) -> (r: bool)
    requires
        at <= chars@.len(),
    ensures
        r == caseless_at(chars@, part@, at as int),
{
    let wanted = text::chars_of(part);
    if wanted.len() > chars.len() - at {
        return false;
    }
    let mut k: usize = 0;
    while k < wanted.len()
        invariant
            wanted@ == part@,
            k <= wanted@.len(),
            at + wanted@.len() <= chars.len(),
            forall|j: int| 0 <= j < k ==> text::ascii_upper(#[trigger] chars@[at + j]) == part@[j],
        decreases wanted@.len() - k,
    {
        if text::upper(chars[at + k]) != wanted[k] {
            assert(text::ascii_upper(chars@[at + k]) != part@[k as int]);
            return false;
        }
        k += 1;
    }
    true
}

/// Prefix used by catalog explanations, from `LC_ALL`, `LC_CTYPE` and `LANG`.
pub fn output_prefix(lc_all: Option<&str>, lc_ctype: Option<&str>, lang: Option<&str>) -> (r: &'static str)
    ensures
        r@ == (match first_set(opt_str(lc_all), opt_str(lc_ctype), opt_str(lang)) {
            Some(locale) if names_utf8(locale) => "\u{2591}\u{2591}"@,
            _ => "--"@,
        }),
{
    let locale = match current_message_locale(lc_all, lc_ctype, lang) {
        Some(locale) => locale,
        None => return "--",
    };
    let chars = text::chars_of(locale);
    let mut i: usize = 0;
    while i < chars.len()
        invariant
            chars@ == locale@,
            i <= chars@.len(),
            opt_str(Some(locale)) == first_set(opt_str(lc_all), opt_str(lc_ctype), opt_str(lang)),
            forall|k: int| 0 <= k < i ==> !#[trigger] utf8_at(locale@, k),
        decreases chars@.len() - i,
    {
        if caseless(&chars, i, "UTF-8") || caseless(&chars, i, "UTF8") {
            assert(utf8_at(locale@, i as int));
            return "\u{2591}\u{2591}";
        }
        i += 1;
    }
    proof {
        reveal_strlit("UTF-8");
        reveal_strlit("UTF8");
        assert(!utf8_at(locale@, locale@.len() as int));
    }
    "--"
}

/// `s` without the blanks at its beginning.
pub open spec fn skip_blanks(s: Seq<char>) -> Seq<char>
    decreases s.len(),
{
    if s.len() > 0 && (s[0] == ' ' || s[0] == '\t') {
        skip_blanks(s.drop_first())
    } else {
        s
    }
}

/// The value of a header among lines, before the first empty one.
pub open spec fn header_among(lines: Seq<Seq<char>>, header: Seq<char>) -> Option<Seq<char>>
    decreases lines.len(),
{
    if lines.len() == 0 || lines[0].len() == 0 {
        None
    } else if header.is_prefix_of(lines[0]) {
        Some(skip_blanks(lines[0].skip(header.len() as int)))
    } else {
        header_among(lines.drop_first(), header)
    }
}

/// Find a catalog header value before the body separator.
pub fn header_value(text: &str, header: &str) -> (r: Option<String>)
    ensures
        text::opt_view(r) == header_among(text::lines(text@), header@),
{
    let lines = text::lines_of(text);
    let ghost all = text::lines(text@);
    let header_len = text::chars_of(header).len();
    let mut i: usize = 0;
    assert(all.skip(0) =~= all);
    while i < lines.len()
        invariant
            all == text::views(lines@),
            header_len == header@.len(),
            i <= lines@.len(),
            header_among(text::lines(text@), header@) == header_among(all.skip(i as int), header@),
        decreases lines@.len() - i,
    {
        let line = &lines[i];
        assert(all.skip(i as int)[0] == line@);
        if line.as_str().is_empty() {
            return None;
        }
        let chars = text::chars_of(line.as_str());
        assert(chars@.skip(0) =~= chars@);
        if text::prefix_at(&chars, 0, header) {
            let mut from: usize = header_len;
            while from < chars.len() && (chars[from] == ' ' || chars[from] == '\t')
                invariant
                    chars@ == line@,
                    header_len <= from <= chars@.len(),
                    skip_blanks(line@.skip(from as int)) == skip_blanks(line@.skip(header_len as int)),
                decreases chars@.len() - from,
            {
                assert(line@.skip(from as int).drop_first() =~= line@.skip(from + 1));
                from += 1;
            }
            let value = text::substring(&chars, from, chars.len());
            assert(value@ =~= line@.skip(from as int));
            return Some(value);
        }
        assert(all.skip(i as int).drop_first() =~= all.skip(i + 1));
        i += 1;
    }
    None
}

/// The position of the first empty line's line feed, or the length.
pub open spec fn blank_at(s: Seq<char>) -> int
    decreases s.len(),
{
    if s.len() < 2 {
        s.len() as int
    } else if s[0] == '\n' && s[1] == '\n' {
        0
    } else {
        1 + blank_at(s.drop_first())
    }
}

/// The headers of an entry.
pub open spec fn headers(s: Seq<char>) -> Seq<char> {
    if blank_at(s) < s.len() {
        s.take(blank_at(s) + 1)
    } else {
        s
    }
}

/// The body of an entry, with the empty line before it.
pub open spec fn body(s: Seq<char>) -> Seq<char> {
    if blank_at(s) < s.len() {
        s.skip(blank_at(s) + 1)
    } else {
        seq![]
    }
}

proof fn lemma_blank_at(s: Seq<char>)
    ensures
        0 <= blank_at(s) <= s.len(),
        blank_at(s) < s.len() ==> blank_at(s) + 1 < s.len(),
    decreases s.len(),
{
    if s.len() >= 2 {
        lemma_blank_at(s.drop_first());
    }
}

/// Split an entry at its first empty line.
pub fn split_headers_body(value: &str) -> (r: (String, String))
    ensures
        r.0@ == headers(value@),
        r.1@ == body(value@),
{
    let chars = text::chars_of(value);
    let n: usize = chars.len();
    let mut i: usize = 0;
    assert(value@.skip(0) =~= value@);
    while n - i >= 2 && !(chars[i] == '\n' && chars[i + 1] == '\n')
        invariant
            chars@ == value@,
            n == chars@.len(),
            i <= n,
            blank_at(value@) == i + blank_at(value@.skip(i as int)),
        decreases chars@.len() - i,
    {
        assert(value@.skip(i as int).drop_first() =~= value@.skip(i + 1));
        i += 1;
    }
    if n - i >= 2 {
        let front = text::substring(&chars, 0, i + 1);
        let back = text::substring(&chars, i + 1, chars.len());
        assert(front@ =~= value@.take(i + 1));
        assert(back@ =~= value@.skip(i + 1));
        (front, back)
    } else {
        proof {
            assert(value@.skip(i as int).len() == value@.len() - i);
        }
        (value.to_owned(), String::new())
    }
}

/// An entry that was given twice: the headers of both, the newer ones first,
/// and the newer body unless it is empty.
pub open spec fn combined(new: Seq<char>, old_entry: Seq<char>) -> Seq<char> {
    headers(new) + headers(old_entry) + (if body(new).len() == 0 {
        body(old_entry)
    } else {
        body(new)
    })
}

/// Combine two entries with the same key.
pub fn combine_entries(new: &str, old_entry: &str) -> (r: String)
    ensures
        r@ == combined(new@, old_entry@),
{
    let (new_headers, new_body) = split_headers_body(new);
    let (old_headers, old_body) = split_headers_body(old_entry);
    let mut result = new_headers;
    result.push_str(old_headers.as_str());
    if new_body.as_str().is_empty() {
        result.push_str(old_body.as_str());
    } else {
        result.push_str(new_body.as_str());
    }
    result
}

/// The characters whose codes are the given bytes.
pub open spec fn byte_chars(bytes: Seq<u8>) -> Seq<char> {
    bytes.map_values(|b: u8| b as char)
}

/// A text with each `@FIELD@` replaced: by the field's value, by the field's
/// name where the field is not set, and by one `@` where the name is empty. An
/// `@` without a second one stays. What stands outside is copied byte by byte.
pub open spec fn expanded(text: Seq<char>, fields: Map<Seq<char>, Seq<char>>) -> Seq<char>
    decreases text.len(),
{
    if text.len() == 0 {
        seq![]
    } else {
        let rest = text.drop_first();
        let end = text::find(rest, '@');
        proof {
            text::lemma_find(rest, '@');
        }
        if text[0] != '@' {
            byte_chars(encode_utf8(seq![text[0]])) + expanded(rest, fields)
        } else if end >= rest.len() {
            seq!['@'] + expanded(rest, fields)
        } else {
            let field = rest.take(end);
            let value = if field.len() == 0 {
                seq!['@']
            } else if fields.dom().contains(field) {
                fields[field]
            } else {
                field
            };
            value + expanded(rest.skip(end + 1), fields)
        }
    }
}

/// The values of fields as strings.
pub open spec fn value_views(values: Map<Seq<char>, String>) -> Map<Seq<char>, Seq<char>> {
    values.map_values(|value: String| value@)
}

/// The values of fields as the strings that their bytes are taken for.
pub open spec fn lossy_values(fields: Map<Seq<char>, Vec<u8>>) -> Map<Seq<char>, Seq<char>> {
    fields.map_values(|value: Vec<u8>| text::utf8_lossy(value@))
}

fn push_byte_chars(out: &mut String, c: char)
    ensures
        final(out)@ == old(out)@ + byte_chars(encode_utf8(seq![c])),
{
    let ghost before = out@;
    let mut one = String::new();
    one.push(c);
    assert(one@ =~= seq![c]);
    let bytes = one.as_str().as_bytes();
    let mut i: usize = 0;
    assert(before + byte_chars(bytes@.take(0)) =~= before);
    while i < bytes.len()
        invariant
            i <= bytes@.len(),
            out@ == before + byte_chars(bytes@.take(i as int)),
        decreases bytes@.len() - i,
    {
        out.push(bytes[i] as char);
        assert(before + byte_chars(bytes@.take(i + 1)) =~= (before + byte_chars(bytes@.take(i as int))).push(bytes@[i as int] as char));
        i += 1;
    }
    assert(bytes@.take(i as int) =~= bytes@);
}

/// Expand `@FIELD@` substitutions with values that are strings already.
pub fn expand_values(text: &str, values: &NameMap<String>) -> (r: String)
    requires
        values.wf(),
    ensures
        r@ == expanded(text@, value_views(values@)),
{
    let chars = text::chars_of(text);
    let ghost fields = value_views(values@);
    let mut out = String::new();
    let mut i: usize = 0;
    proof {
        assert(text@.skip(0) =~= text@);
        assert(out@ + expanded(text@, fields) =~= expanded(text@, fields));
    }
    while i < chars.len()
        invariant
            values.wf(),
            chars@ == text@,
            i <= chars@.len(),
            fields == value_views(values@),
            out@ + expanded(text@.skip(i as int), fields) == expanded(text@, fields),
        decreases chars@.len() - i,
    {
        let ghost here = text@.skip(i as int);
        let ghost rest = here.drop_first();
        let ghost before = out@;
        assert(rest =~= text@.skip(i + 1));
        if chars[i] != '@' {
            push_byte_chars(&mut out, chars[i]);
            assert(before + byte_chars(encode_utf8(seq![here[0]])) + expanded(rest, fields) =~= before + (byte_chars(encode_utf8(seq![here[0]])) + expanded(rest, fields)));
            i += 1;
            continue;
        }
        let end = text::find_from(&chars, i + 1, '@');
        if end >= chars.len() {
            out.push('@');
            assert(before.push('@') + expanded(rest, fields) =~= before + (seq!['@'] + expanded(rest, fields)));
            i += 1;
            continue;
        }
        let field = text::substring(&chars, i + 1, end);
        let ghost name = rest.take(end - i - 1);
        assert(field@ =~= name);
        let ghost after = expanded(rest.skip(end - i), fields);
        assert(rest.skip(end - i) =~= text@.skip(end + 1));
        if field.as_str().is_empty() {
            out.push('@');
            assert(before.push('@') + after =~= before + (seq!['@'] + after));
        } else if let Some(value) = values.get(field.as_str()) {
            out.push_str(value.as_str());
            assert(fields[name] == value@);
            assert(before + value@ + after =~= before + (value@ + after));
        } else {
            out.push_str(field.as_str());
            assert(before + name + after =~= before + (name + after));
        }
        i = end + 1;
    }
    proof {
        assert(text@.skip(i as int) =~= Seq::<char>::empty());
        assert(out@ + Seq::<char>::empty() =~= out@);
    }
    out
}

/// Expand catalog `@FIELD@` substitutions using one journal entry.
pub fn expand_fields(text: &str, fields: &NameMap<Vec<u8>>) -> (r: String)
    requires
        fields.wf(),
    ensures
        r@ == expanded(text@, lossy_values(fields@)),
{
    let mut values: NameMap<String> = NameMap::new();
    let mut i: usize = 0;
    proof {
        fields.lemma_keys();
    }
    while i < fields.len()
        invariant
            fields.wf(),
            values.wf(),
            fields.keys().no_duplicates(),
            i <= fields.keys().len(),
            forall|name: Seq<char>| #[trigger] values@.dom().contains(name) <==> fields.keys().take(i as int).contains(name),
            forall|name: Seq<char>| #[trigger] values@.dom().contains(name) ==> fields@.dom().contains(name) && values@[name]@ == text::utf8_lossy(fields@[name]@),
        decreases fields.keys().len() - i,
    {
        let ghost seen = fields.keys().take(i as int);
        let ghost key = fields.keys()[i as int];
        let ghost prev = values@;
        let name = fields.key_at(i).clone();
        let value = text::from_utf8_lossy(fields.value_at(i).as_slice());
        values.insert(name, value);
        proof {
            assert(fields.keys().take(i + 1) =~= seen.push(key));
            assert forall|x: Seq<char>| #[trigger] values@.dom().contains(x) <==> fields.keys().take(i + 1).contains(x) by {
                if seen.contains(x) {
                    let k = choose|k: int| 0 <= k < seen.len() && seen[k] == x;
                    assert(seen.push(key)[k] == x);
                }
                if x == key {
                    assert(seen.push(key)[i as int] == x);
                }
                assert(values@.dom().contains(x) <==> prev.dom().contains(x) || x == key);
            }
        }
        i += 1;
    }
    proof {
        assert(fields.keys().take(i as int) =~= fields.keys());
        assert(value_views(values@) =~= lossy_values(fields@)) by {
            assert forall|name: Seq<char>| value_views(values@).dom().contains(name) <==> lossy_values(fields@).dom().contains(name) by {
                assert(values@.dom().contains(name) <==> fields.keys().contains(name));
            }
            assert forall|name: Seq<char>| value_views(values@).dom().contains(name) implies value_views(values@)[name] == lossy_values(fields@)[name] by {
                assert(values@.dom().contains(name));
            }
        }
    }
    expand_values(text, &values)
}

/// Of two different byte strings exactly one is the lesser.
pub proof fn lemma_bytes_total(a: Seq<u8>, b: Seq<u8>)
    ensures
        a == b ==> !bytes_lt(a, b),
        a != b ==> bytes_lt(a, b) || bytes_lt(b, a),
        !(bytes_lt(a, b) && bytes_lt(b, a)),
    decreases a.len(),
{
    if a.len() > 0 && b.len() > 0 && a[0] == b[0] {
        lemma_bytes_total(a.drop_first(), b.drop_first());
        if a.drop_first() == b.drop_first() {
            assert(a =~= seq![a[0]] + a.drop_first());
            assert(b =~= seq![b[0]] + b.drop_first());
        }
    } else if a.len() == 0 && b.len() == 0 {
        assert(a =~= b);
    }
}

pub proof fn lemma_bytes_transitive(a: Seq<u8>, b: Seq<u8>, c: Seq<u8>)
    requires
        bytes_lt(a, b),
        bytes_lt(b, c),
    ensures
        bytes_lt(a, c),
    decreases a.len(),
{
    if a.len() > 0 && a[0] == b[0] && b[0] == c[0] {
        lemma_bytes_transitive(a.drop_first(), b.drop_first(), c.drop_first());
    }
}

/// Different strings have different bytes.
pub proof fn lemma_utf8_injective(a: Seq<char>, b: Seq<char>)
    ensures
        encode_utf8(a) == encode_utf8(b) ==> a == b,
{
    vstd::utf8::encode_utf8_decode_utf8(a);
    vstd::utf8::encode_utf8_decode_utf8(b);
}

/// Of two different keys exactly one comes first.
pub proof fn lemma_keys_total(a: KeyView, b: KeyView)
    ensures
        a == b ==> !key_lt(a, b),
        a != b ==> key_lt(a, b) || key_lt(b, a),
        !(key_lt(a, b) && key_lt(b, a)),
{
    lemma_bytes_total(a.id, b.id);
    lemma_bytes_total(encode_utf8(a.language), encode_utf8(b.language));
    lemma_utf8_injective(a.language, b.language);
}

pub proof fn lemma_keys_transitive(a: KeyView, b: KeyView, c: KeyView)
    requires
        key_lt(a, b),
        key_lt(b, c),
    ensures
        key_lt(a, c),
{
    if bytes_lt(a.id, b.id) && bytes_lt(b.id, c.id) {
        lemma_bytes_transitive(a.id, b.id, c.id);
    } else if a.id == b.id && b.id == c.id {
        lemma_bytes_transitive(encode_utf8(a.language), encode_utf8(b.language), encode_utf8(c.language));
    }
}

/// Where the catalog database is, unless it is configured.
pub const DEFAULT_DATABASE: &'static str = "/var/lib/systemd/catalog/database";

/// The path of the catalog database; `configured` is the setting in the
/// environment.
pub fn database_path(configured: Option<&str>) -> (r: String)
    ensures
        r@ == (match configured {
            Some(path) => path@,
            None => DEFAULT_DATABASE@,
        }),
{
    match configured {
        Some(path) => path.to_owned(),
        None => DEFAULT_DATABASE.to_owned(),
    }
}

/// The directories of catalog sources: the configured one where it is not
/// empty, else the local and the system one.
pub fn source_directories(configured: Option<&str>) -> (r: Vec<String>)
    ensures
        text::views(r@) == (match configured {
            Some(path) if path@.len() > 0 => seq![path@],
            _ => seq!["/usr/local/lib/systemd/catalog"@, "/usr/lib/systemd/catalog"@],
        }),
{
    let mut out: Vec<String> = Vec::new();
    if let Some(path) = configured {
        if !path.is_empty() {
            out.push(path.to_owned());
            assert(text::views(out@) =~= seq![path@]);
            return out;
        }
    }
    out.push("/usr/local/lib/systemd/catalog".to_owned());
    out.push("/usr/lib/systemd/catalog".to_owned());
    assert(text::views(out@) =~= seq!["/usr/local/lib/systemd/catalog"@, "/usr/lib/systemd/catalog"@]);
    out
}

/// How an identifier is spelled: two digits a byte, the high one first, letters
/// in lower case.
pub proof fn law_how_identifiers_are_spelled(id: Seq<u8>, i: int)
    requires
        0 <= i < id.len(),
    ensures
        spelled(id).len() == 2 * id.len(),
        ({
            let high = id[i] as int / 16;
            let low = id[i] as int % 16;
            &&& spelled(id)[2 * i] as int == (if high < 10 { 48 + high } else { 87 + high })
            &&& spelled(id)[2 * i + 1] as int == (if low < 10 { 48 + low } else { 87 + low })
        }),
{
    assert((2 * i) / 2 == i && (2 * i) % 2 == 0);
    assert((2 * i + 1) / 2 == i && (2 * i + 1) % 2 == 1);
}

/// What an identifier is: 32 hexadecimal digits in any case, hyphens aside; two
/// digits make a byte, the high one first.
pub proof fn law_what_an_identifier_is(a: Seq<char>, b: Seq<char>, i: int)
    ensures
        compact(a.push('-') + b) == compact(a + b),
        !a.contains('-') ==> {
            &&& is_id(a) <==> a.len() == 32 && forall|k: int|
                0 <= k < 32 ==> ('0' <= #[trigger] a[k] <= '9') || ('a' <= a[k] <= 'f') || ('A' <= a[k] <= 'F')
            &&& is_id(a) && 0 <= i < 16 ==> {
                let d = |c: char| if c as int <= 57 {
                    c as int - 48
                } else if c as int <= 70 {
                    c as int - 55
                } else {
                    c as int - 87
                };
                id_of(a)[i] == d(a[2 * i]) * 16 + d(a[2 * i + 1])
            }
        },
{
    let keep = |c: char| c != '-';
    Seq::filter_distributes_over_add(a.push('-'), b, keep);
    Seq::filter_distributes_over_add(a, b, keep);
    a.lemma_filter_push('-', keep);
    if !a.contains('-') {
        assert forall|k: int| 0 <= k < a.len() implies keep(#[trigger] a[k]) by {
            assert(a.contains(a[k]));
        }
        lemma_filter_keeps(a, keep);
        assert(compact(a) == a);
        if is_id(a) {
            assert forall|k: int| 0 <= k < 32 implies ('0' <= #[trigger] a[k] <= '9') || ('a' <= a[k] <= 'f') || ('A' <= a[k] <= 'F') by {
                assert(is_hex(compact(a)[k]));
            }
            if 0 <= i < 16 {
                assert(is_hex(compact(a)[2 * i]) && is_hex(compact(a)[2 * i + 1]));
            }
        }
        if a.len() == 32 && forall|k: int| 0 <= k < 32 ==> ('0' <= #[trigger] a[k] <= '9') || ('a' <= a[k] <= 'f') || ('A' <= a[k] <= 'F') {
            assert forall|k: int| 0 <= k < 32 implies is_hex(#[trigger] compact(a)[k]) by {
                assert(('0' <= a[k] <= '9') || ('a' <= a[k] <= 'f') || ('A' <= a[k] <= 'F'));
            }
        }
    }
}

/// Of two byte strings the lesser is the one whose byte is less where they
/// first differ, or that ends there.
pub proof fn law_byte_strings_are_ordered_by_the_first_difference(a: Seq<u8>, b: Seq<u8>, k: int)
    requires
        0 <= k <= a.len(),
        k <= b.len(),
        a.take(k) == b.take(k),
        k < a.len() && k < b.len() ==> a[k] != b[k],
    ensures
        k < a.len() && k < b.len() ==> (bytes_lt(a, b) <==> a[k] < b[k]),
        k == a.len() ==> (bytes_lt(a, b) <==> k < b.len()),
        k == b.len() ==> !bytes_lt(a, b),
    decreases k,
{
    if k > 0 {
        assert(a[0] == a.take(k)[0] && b[0] == b.take(k)[0]);
        let x = a.drop_first();
        let y = b.drop_first();
        assert(x.take(k - 1) =~= y.take(k - 1)) by {
            assert forall|i: int| 0 <= i < k - 1 implies x[i] == y[i] by {
                assert(a.take(k)[i + 1] == b.take(k)[i + 1]);
                assert(a.take(k)[i + 1] == a[i + 1] && b.take(k)[i + 1] == b[i + 1]);
                assert(x[i] == a[i + 1] && y[i] == b[i + 1]);
            }
        }
        law_byte_strings_are_ordered_by_the_first_difference(x, y, k - 1);
    }
}

/// Entries are ordered by identifier, and those of one identifier by language.
pub proof fn law_entries_are_ordered_by_identifier(a: KeyView, b: KeyView)
    ensures
        a.id != b.id ==> (key_lt(a, b) <==> bytes_lt(a.id, b.id)),
        a.id == b.id ==> (key_lt(a, b) <==> bytes_lt(encode_utf8(a.language), encode_utf8(b.language))),
{
    lemma_bytes_total(a.id, b.id);
}

/// Where everything stands in a database: a signature, two zeros, the size of
/// the header, the number of entries and the size of each; then for each entry
/// the identifier, the language filled up with zeros, and where its text begins
/// behind the table; then the texts, each ended by a zero.
pub proof fn law_how_a_database_is_laid_out(records: Seq<RecordView>, i: int)
    requires
        0 <= i < records.len(),
        storable(records),
        encode(records).len() <= usize::MAX,
    ensures
        ({
            let bytes = encode(records);
            let at = 40 + i * 56;
            let texts = 40 + 56 * records.len();
            let offset = u64_at(bytes, at + 48);
            let language = encode_utf8(records[i].key.language);
            let text = encode_utf8(records[i].text);
            &&& bytes.take(8) == seq![82u8, 72, 72, 72, 75, 83, 76, 80]
            &&& u32_at(bytes, 8) == 0
            &&& u32_at(bytes, 12) == 0
            &&& u64_at(bytes, 16) == 40
            &&& u64_at(bytes, 24) == records.len()
            &&& u64_at(bytes, 32) == 56
            &&& bytes.subrange(at, at + 16) == records[i].key.id
            &&& bytes.subrange(at + 16, at + 16 + language.len()) == language
            &&& forall|k: int| at + 16 + language.len() <= k < at + 48 ==> #[trigger] bytes[k] == 0
            &&& texts + offset + text.len() < bytes.len()
            &&& bytes.subrange(texts + offset, texts + offset + text.len()) == text
            &&& bytes[texts + offset + text.len()] == 0
            &&& i == 0 ==> offset == 0
        }),
{
    let n = records.len() as int;
    let bytes = encode(records);
    let at = 40 + i * 56;
    let language = encode_utf8(records[i].key.language);
    vstd::bytes::lemma_auto_spec_u32_to_from_le_bytes();
    vstd::bytes::lemma_auto_spec_u64_to_from_le_bytes();
    lemma_table_len(records, n);
    assert(header(n).len() == 40);
    assert(bytes.take(8) =~= signature());
    assert(bytes.subrange(8, 12) =~= spec_u32_to_le_bytes(0));
    assert(bytes.subrange(12, 16) =~= spec_u32_to_le_bytes(0));
    assert(bytes.subrange(16, 24) =~= spec_u64_to_le_bytes(40));
    assert(bytes.subrange(24, 32) =~= spec_u64_to_le_bytes(n as u64));
    assert(bytes.subrange(32, 40) =~= spec_u64_to_le_bytes(56));
    lemma_item_fields(records, i);
    let field = bytes.subrange(at + 16, at + 48);
    assert(language_fits(records[i]));
    assert(bytes.subrange(at + 16, at + 16 + language.len()) =~= language) by {
        assert forall|k: int| 0 <= k < language.len() implies bytes[at + 16 + k] == language[k] by {
            assert(field[k] == padded(records[i].key.language)[k]);
        }
    }
    assert forall|k: int| at + 16 + language.len() <= k < at + 48 implies #[trigger] bytes[k] == 0 by {
        assert(field[k - at - 16] == padded(records[i].key.language)[k - at - 16]);
    }
    lemma_item_text(records, i);
    lemma_text_place(records, i);
}

proof fn lemma_text_place(records: Seq<RecordView>, i: int)
    requires
        0 <= i < records.len(),
        storable(records),
        encode(records).len() <= usize::MAX,
    ensures
        ({
            let bytes = encode(records);
            let from = 40 + 56 * records.len() + strings_of(records, i).len();
            let text = encode_utf8(records[i].text);
            &&& from + text.len() < bytes.len()
            &&& bytes.subrange(from as int, (from + text.len()) as int) == text
            &&& bytes[(from + text.len()) as int] == 0
        }),
{
    let n = records.len() as int;
    let bytes = encode(records);
    vstd::bytes::lemma_auto_spec_u32_to_from_le_bytes();
    vstd::bytes::lemma_auto_spec_u64_to_from_le_bytes();
    lemma_table_len(records, n);
    assert(header(n).len() == 40);
    lemma_strings_at(records, n, i);
    let texts = strings_of(records, n);
    let offset = strings_of(records, i).len() as int;
    let text = encode_utf8(records[i].text);
    let part = texts.subrange(offset, offset + text.len() + 1);
    assert(part == terminated(records[i].text));
    let from = 40 + 56 * n + offset;
    assert forall|k: int| 0 <= k <= text.len() implies bytes[from + k] == part[k] by {
        assert(bytes[from + k] == texts[offset + k]);
    }
    assert(bytes.subrange(from, from + text.len()) =~= text) by {
        assert forall|k: int| 0 <= k < text.len() implies bytes[from + k] == text[k] by {
            assert(part[k] == text[k]);
        }
    }
    assert(part[text.len() as int] == 0u8);
}

/// A database is refused without a whole header with the signature, with an
/// incompatible change, a header or entries that are too small, no entry, or a
/// table that does not fit in it.
pub proof fn law_which_databases_are_refused(bytes: Seq<u8>)
    ensures
        decode(bytes) == Err::<Seq<RecordView>, CatalogError>(CatalogError::InvalidHeader) <== bytes.len() < 40,
        bytes.len() >= 40 && bytes.take(8) != seq![82u8, 72, 72, 72, 75, 83, 76, 80] ==> decode(bytes) == Err::<Seq<RecordView>, CatalogError>(
            CatalogError::InvalidHeader,
        ),
        decode(bytes) is Ok ==> {
            &&& u32_at(bytes, 12) == 0
            &&& u64_at(bytes, 16) >= 40
            &&& u64_at(bytes, 24) > 0
            &&& u64_at(bytes, 32) >= 56
            &&& u64_at(bytes, 16) + u64_at(bytes, 32) * u64_at(bytes, 24) <= bytes.len()
            &&& decode(bytes)->Ok_0.len() == u64_at(bytes, 24)
            &&& forall|i: int, j: int| #![auto] 0 <= i < j < decode(bytes)->Ok_0.len() && j == i + 1 ==> key_lt(
                decode(bytes)->Ok_0[i].key,
                decode(bytes)->Ok_0[j].key,
            )
        },
{
    assert(signature() =~= seq![82u8, 72, 72, 72, 75, 83, 76, 80]);
    if decode(bytes) is Ok {
        let h = u64_at(bytes, 16) as int;
        let s = u64_at(bytes, 32) as int;
        let n = u64_at(bytes, 24) as int;
        lemma_items_in_order(bytes, h, s, h + s * n, n);
    }
}

proof fn lemma_items_in_order(bytes: Seq<u8>, table: int, size: int, strings: int, n: int)
    requires
        n >= 0,
        items(bytes, table, size, strings, n) is Ok,
    ensures
        items(bytes, table, size, strings, n)->Ok_0.len() == n,
        forall|i: int, j: int| #![auto] 0 <= i < j < n && j == i + 1 ==> key_lt(
            items(bytes, table, size, strings, n)->Ok_0[i].key,
            items(bytes, table, size, strings, n)->Ok_0[j].key,
        ),
    decreases n,
{
    if n > 0 {
        lemma_items_in_order(bytes, table, size, strings, n - 1);
    }
}

/// The text of a key is that of the first entry that has it, if one has.
pub proof fn law_the_text_of_a_key(records: Seq<RecordView>, key: KeyView, i: int)
    ensures
        0 <= i < records.len() && records[i].key == key && (forall|k: int| 0 <= k < i ==> (#[trigger] records[k]).key != key) ==> text_of(
            records,
            key,
        ) == Some(records[i].text),
        (forall|k: int| 0 <= k < records.len() ==> (#[trigger] records[k]).key != key) ==> text_of(records, key) is None,
    decreases records.len(),
{
    if records.len() > 0 {
        let rest = records.drop_first();
        if records[0].key.id == key.id && records[0].key.language == key.language {
            assert(records[0].key == key);
        } else {
            assert(records[0].key != key);
            law_the_text_of_a_key(rest, key, i - 1);
            if 0 <= i < records.len() && records[i].key == key && (forall|k: int| 0 <= k < i ==> (#[trigger] records[k]).key != key) {
                assert(i > 0);
                assert(rest[i - 1] == records[i]);
                assert forall|k: int| 0 <= k < i - 1 implies (#[trigger] rest[k]).key != key by {
                    assert(rest[k] == records[k + 1]);
                }
            }
            if forall|k: int| 0 <= k < records.len() ==> (#[trigger] records[k]).key != key {
                assert forall|k: int| 0 <= k < rest.len() implies (#[trigger] rest[k]).key != key by {
                    assert(rest[k] == records[k + 1]);
                }
            }
        }
    }
}

/// The languages that are tried for a locale: the language with its territory,
/// without what follows a dot or an at sign; then without its territory; then
/// none. For no locale, or the neutral ones, only none.
pub proof fn law_which_languages_are_tried(language: Seq<char>, territory: Seq<char>, tail: Seq<char>)
    requires
        language.len() > 0,
        !language.contains('_') && !language.contains('.') && !language.contains('@'),
        !territory.contains('.') && !territory.contains('@'),
        tail.len() == 0 || tail[0] == '.' || tail[0] == '@',
        encode_utf8(language.push('_') + territory).len() <= 31,
        encode_utf8(language).len() <= 31,
        language != "C"@ && language != "POSIX"@,
    ensures
        fallbacks(None) == seq![Seq::<char>::empty()],
        fallbacks(Some("C"@)) == seq![Seq::<char>::empty()],
        fallbacks(Some("POSIX"@)) == seq![Seq::<char>::empty()],
        fallbacks(Some(language.push('_') + territory + tail)) == seq![language.push('_') + territory, language, Seq::<char>::empty()],
        tail.len() == 0 ==> fallbacks(Some(language)) == seq![language, Seq::<char>::empty()],
{
    let full = language.push('_') + territory;
    let locale = full + tail;
    reveal_strlit("C");
    reveal_strlit("POSIX");
    assert forall|i: int| 0 <= i < full.len() implies #[trigger] full[i] != '.' && full[i] != '@' by {
        if i < language.len() {
            assert(language.contains(language[i]));
        } else if i > language.len() {
            assert(territory.contains(territory[i - language.len() - 1]));
        }
    }
    lemma_stem(full, tail);
    assert(full[language.len() as int] == '_');
    assert(full.contains('_'));
    assert forall|i: int| 0 <= i < language.len() implies #[trigger] full[i] != '_' by {
        assert(language.contains(language[i]));
    }
    text::lemma_find_is(full, '_', language.len() as int);
    assert(full.take(language.len() as int) =~= language);
    assert(locale.len() > 1);
    assert(locale != "C"@ && locale != "POSIX"@) by {
        assert(locale[language.len() as int] == '_');
    }
    assert forall|i: int| 0 <= i < language.len() implies #[trigger] language[i] != '.' && language[i] != '@' by {
        assert(language.contains(language[i]));
    }
    lemma_stem(language, Seq::empty());
    assert(language + Seq::empty() =~= language);
}

proof fn lemma_stem(stem: Seq<char>, tail: Seq<char>)
    requires
        forall|i: int| 0 <= i < stem.len() ==> #[trigger] stem[i] != '.' && stem[i] != '@',
        tail.len() == 0 || tail[0] == '.' || tail[0] == '@',
    ensures
        locale_stem(stem + tail) == stem,
{
    let locale = stem + tail;
    let n = stem.len() as int;
    text::lemma_find(locale, '.');
    text::lemma_find(locale, '@');
    let dot = text::find(locale, '.');
    let at = text::find(locale, '@');
    assert(dot >= n) by {
        if dot < n {
            assert(locale[dot] == stem[dot]);
        }
    }
    assert(at >= n) by {
        if at < n {
            assert(locale[at] == stem[at]);
        }
    }
    if tail.len() > 0 {
        assert(locale[n] == tail[0]);
        assert(dot == n || at == n);
    }
    assert(locale.take(n) =~= stem);
    assert(locale.len() == n + tail.len());
}

/// Of three settings the first counts that is set and not empty.
pub proof fn law_the_first_setting_counts(a: Option<Seq<char>>, b: Option<Seq<char>>, c: Option<Seq<char>>)
    ensures
        ({
            let set = |x: Option<Seq<char>>| x is Some && x->0.len() > 0;
            &&& set(a) ==> first_set(a, b, c) == a
            &&& !set(a) && set(b) ==> first_set(a, b, c) == b
            &&& !set(a) && !set(b) && set(c) ==> first_set(a, b, c) == c
            &&& !set(a) && !set(b) && !set(c) ==> first_set(a, b, c) is None
        }),
{
}

/// A locale names UTF-8 where it holds `UTF-8` or `UTF8`, in any case.
pub proof fn law_when_a_locale_names_utf8(locale: Seq<char>)
    ensures
        names_utf8(locale) <==> exists|from: int, to: int|
            0 <= from <= to <= locale.len() && (#[trigger] text::upper_case(locale).subrange(from, to) == "UTF-8"@ || text::upper_case(
                locale,
            ).subrange(from, to) == "UTF8"@),
{
    let up = text::upper_case(locale);
    if names_utf8(locale) {
        let i = choose|i: int| 0 <= i <= locale.len() && #[trigger] utf8_at(locale, i);
        if caseless_at(locale, "UTF-8"@, i) {
            assert(up.subrange(i, i + "UTF-8"@.len()) =~= "UTF-8"@) by {
                assert forall|k: int| 0 <= k < "UTF-8"@.len() implies up[i + k] == "UTF-8"@[k] by {
                    assert(text::ascii_upper(locale[i + k]) == "UTF-8"@[k]);
                }
            }
        } else {
            assert(up.subrange(i, i + "UTF8"@.len()) =~= "UTF8"@) by {
                assert forall|k: int| 0 <= k < "UTF8"@.len() implies up[i + k] == "UTF8"@[k] by {
                    assert(text::ascii_upper(locale[i + k]) == "UTF8"@[k]);
                }
            }
        }
    }
    if exists|from: int, to: int|
        0 <= from <= to <= locale.len() && (#[trigger] up.subrange(from, to) == "UTF-8"@ || up.subrange(from, to) == "UTF8"@) {
        let (from, to) = choose|from: int, to: int|
            0 <= from <= to <= locale.len() && (#[trigger] up.subrange(from, to) == "UTF-8"@ || up.subrange(from, to) == "UTF8"@);
        let part = up.subrange(from, to);
        assert forall|k: int| 0 <= k < part.len() implies text::ascii_upper(#[trigger] locale[from + k]) == part[k] by {
            assert(part[k] == up[from + k]);
        }
        assert(utf8_at(locale, from));
    }
}

/// The value of a header is what follows it, blanks before it aside, on the
/// first line that begins with it before an empty line.
pub proof fn law_where_a_header_is_found(lines: Seq<Seq<char>>, header: Seq<char>, value: Seq<char>, other: Seq<char>)
    requires
        header.len() > 0,
        other.len() > 0,
        !header.is_prefix_of(other),
        value.len() == 0 || (value[0] != ' ' && value[0] != '\t'),
    ensures
        header_among(Seq::empty(), header) is None,
        header_among(seq![Seq::empty()] + lines, header) is None,
        header_among(seq![header + value] + lines, header) == Some(value),
        header_among(seq![header.push(' ') + value] + lines, header) == Some(value),
        header_among(seq![other] + lines, header) == header_among(lines, header),
{
    let a = seq![header + value] + lines;
    assert((header + value).skip(header.len() as int) =~= value);
    assert(header =~= (header + value).subrange(0, header.len() as int));
    let b = seq![header.push(' ') + value] + lines;
    let line = header.push(' ') + value;
    assert(header =~= line.subrange(0, header.len() as int));
    assert(line.skip(header.len() as int) =~= seq![' '] + value);
    assert((seq![' '] + value).drop_first() =~= value);
    reveal_with_fuel(skip_blanks, 2);
    assert(skip_blanks(value) == value);
    let c = seq![other] + lines;
    assert(c.drop_first() =~= lines);
    assert(a[0] == header + value && b[0] == line && c[0] == other);
}

/// An entry is its headers, up to the first empty line, and the rest of it.
pub proof fn law_an_entry_is_its_headers_and_its_body(head: Seq<char>, rest: Seq<char>)
    requires
        head.len() > 0,
        head.last() == '\n',
        forall|i: int, j: int| 0 <= i && j == i + 1 && j < head.len() ==> !(#[trigger] head[i] == '\n' && #[trigger] head[j] == '\n'),
    ensures
        headers(head.push('\n') + rest) == head,
        body(head.push('\n') + rest) == seq!['\n'] + rest,
        headers(head) == head,
        body(head) == Seq::<char>::empty(),
{
    let s = head.push('\n') + rest;
    lemma_blank_is(s, head.len() - 1);
    assert(s.take(head.len() as int) =~= head);
    assert(s.skip(head.len() as int) =~= seq!['\n'] + rest);
    lemma_no_blank(head);
}

proof fn lemma_blank_is(s: Seq<char>, k: int)
    requires
        0 <= k < s.len() - 1,
        s[k] == '\n' && s[k + 1] == '\n',
        forall|i: int, j: int| 0 <= i < k && j == i + 1 ==> !(#[trigger] s[i] == '\n' && #[trigger] s[j] == '\n'),
    ensures
        blank_at(s) == k,
    decreases k,
{
    if k > 0 {
        let rest = s.drop_first();
        assert(!(s[0] == '\n' && s[1] == '\n'));
        assert(rest[k - 1] == s[k] && rest[k] == s[k + 1]);
        assert forall|i: int, j: int| 0 <= i < k - 1 && j == i + 1 implies !(#[trigger] rest[i] == '\n' && #[trigger] rest[j] == '\n') by {
            assert(rest[i] == s[i + 1] && rest[j] == s[j + 1]);
        }
        lemma_blank_is(rest, k - 1);
    }
}

proof fn lemma_no_blank(s: Seq<char>)
    requires
        forall|i: int, j: int| 0 <= i && j == i + 1 && j < s.len() ==> !(#[trigger] s[i] == '\n' && #[trigger] s[j] == '\n'),
    ensures
        blank_at(s) == s.len(),
    decreases s.len(),
{
    if s.len() >= 2 {
        let rest = s.drop_first();
        assert(!(s[0] == '\n' && s[1] == '\n'));
        assert forall|i: int, j: int| 0 <= i && j == i + 1 && j < rest.len() implies !(#[trigger] rest[i] == '\n' && #[trigger] rest[j] == '\n') by {
            assert(rest[i] == s[i + 1] && rest[j] == s[j + 1]);
        }
        lemma_no_blank(rest);
    }
}

/// Two entries of one key are combined: the headers of the new one before those
/// of the old one, with the body of the new one where it has one.
pub proof fn law_how_entries_are_combined(new: Seq<char>, old_entry: Seq<char>)
    ensures
        body(new).len() > 0 ==> combined(new, old_entry) == headers(new) + headers(old_entry) + body(new),
        body(new).len() == 0 ==> combined(new, old_entry) == headers(new) + headers(old_entry) + body(old_entry),
{
}

/// A name between at signs is replaced by the value of the field, by itself
/// where there is no such field, and by an at sign where it is empty. An at
/// sign alone stays, and other ASCII text does too.
pub proof fn law_how_fields_are_filled_in(name: Seq<char>, rest: Seq<char>, fields: Map<Seq<char>, Seq<char>>, c: char)
    requires
        !name.contains('@'),
        '\0' <= c <= '\u{7f}',
        c != '@',
    ensures
        expanded(Seq::empty(), fields) == Seq::<char>::empty(),
        name.len() > 0 && fields.dom().contains(name) ==> expanded(seq!['@'] + name + seq!['@'] + rest, fields) == fields[name] + expanded(
            rest,
            fields,
        ),
        name.len() > 0 && !fields.dom().contains(name) ==> expanded(seq!['@'] + name + seq!['@'] + rest, fields) == name + expanded(rest, fields),
        expanded(seq!['@', '@'] + rest, fields) == seq!['@'] + expanded(rest, fields),
        expanded(seq!['@'] + name, fields) == seq!['@'] + expanded(name, fields),
        expanded(seq![c] + rest, fields) == seq![c] + expanded(rest, fields),
{
    let all = seq!['@'] + name + seq!['@'] + rest;
    let tail = all.drop_first();
    assert(tail =~= name + seq!['@'] + rest);
    assert forall|i: int| 0 <= i < name.len() implies #[trigger] tail[i] != '@' by {
        assert(name.contains(name[i]));
        assert(tail[i] == name[i]);
    }
    let n = name.len() as int;
    assert(tail[n] == '@');
    text::lemma_find_is(tail, '@', n);
    assert(tail.take(n) =~= name);
    assert(tail.skip(n + 1) =~= rest);
    let two = seq!['@', '@'] + rest;
    let behind = two.drop_first();
    assert(behind[0] == '@');
    text::lemma_find_is(behind, '@', 0);
    assert(behind.take(0).len() == 0);
    assert(behind.skip(1) =~= rest);
    let alone = seq!['@'] + name;
    assert(alone.drop_first() =~= name);
    assert forall|i: int| 0 <= i < name.len() implies #[trigger] name[i] != '@' by {
        assert(name.contains(name[i]));
    }
    text::lemma_find_is(name, '@', n);
    let plain = seq![c] + rest;
    assert(plain.drop_first() =~= rest);
    let one = seq![c];
    assert(vstd::utf8::is_ascii_chars(one));
    vstd::utf8::is_ascii_chars_encode_utf8(one);
    assert(byte_chars(encode_utf8(one)) =~= one) by {
        assert(one[0] as u8 == encode_utf8(one)[0]);
    }
}

/// The identifiers of the first entries, each once where equal ones stand
/// together.
pub proof fn law_identifiers_are_listed_once(records: Seq<RecordView>, n: int)
    requires
        0 < n <= records.len(),
    ensures
        ids_of(records, 0) == Seq::<Seq<u8>>::empty(),
        ids_of(records, n).len() > 0,
        ids_of(records, n).last() == records[n - 1].key.id,
        n == 1 ==> ids_of(records, n) == seq![records[0].key.id],
        n > 1 && records[n - 1].key.id == records[n - 2].key.id ==> ids_of(records, n) == ids_of(records, n - 1),
        n > 1 && records[n - 1].key.id != records[n - 2].key.id ==> ids_of(records, n) == ids_of(records, n - 1).push(records[n - 1].key.id),
    decreases n,
{
    if n > 1 {
        law_identifiers_are_listed_once(records, n - 1);
    } else {
        assert(ids_of(records, 1) =~= seq![records[0].key.id]) by {
            assert(ids_of(records, 0) =~= Seq::empty());
        }
    }
}

/// A language fits where it has at most 31 bytes: its field ends with a zero.
pub proof fn law_which_languages_fit(record: RecordView)
    ensures
        language_fits(record) <==> encode_utf8(record.key.language).len() < 32,
{
}

/// Which entries of a database are refused, and why. The language ends at a zero
/// within its 32 bytes; the text stands within the database, ends at a zero, and
/// both are UTF-8.
pub proof fn law_which_entries_are_refused(bytes: Seq<u8>, at: int, strings: int)
    requires
        0 <= at,
        at + 56 <= bytes.len(),
        0 <= strings,
    ensures
        ({
            let field = bytes.subrange(at + 16, at + 48);
            let offset = u64_at(bytes, at + 48);
            let r = item(bytes, at, strings);
            &&& !field.contains(0u8) ==> r is Err && (valid_utf8(field) ==> r == Err::<RecordView, CatalogError>(CatalogError::LanguageTooLong))
            &&& r is Ok ==> field.contains(0u8) && strings + offset < bytes.len() && bytes.skip(strings + offset).contains(0u8)
            &&& r matches Ok(record) ==> {
                &&& record.key.id == bytes.subrange(at, at + 16)
                &&& encode_utf8(record.key.language) + seq![0u8] == field.take(encode_utf8(record.key.language).len() as int + 1)
                &&& encode_utf8(record.text) + seq![0u8] == bytes.skip(strings + offset).take(encode_utf8(record.text).len() as int + 1)
                &&& !encode_utf8(record.key.language).contains(0u8) && !encode_utf8(record.text).contains(0u8)
            }
            &&& r == Err::<RecordView, CatalogError>(CatalogError::OffsetOutOfBounds) ==> strings + offset >= bytes.len()
            &&& r == Err::<RecordView, CatalogError>(CatalogError::UnterminatedString) ==> strings + offset < bytes.len() && !bytes.skip(strings + offset).contains(0u8)
            &&& r == Err::<RecordView, CatalogError>(CatalogError::OffsetOverflows) ==> strings + offset > usize::MAX
        }),
{
    let field = bytes.subrange(at + 16, at + 48);
    let offset = u64_at(bytes, at + 48) as int;
    let tail = bytes.skip(strings + offset);
    text::lemma_find(field, 0u8);
    text::lemma_find(tail, 0u8);
    let k = text::find(field, 0u8);
    let n = text::find(tail, 0u8);
    if !field.contains(0u8) {
        assert(k == field.len()) by {
            if k < field.len() {
                assert(field.contains(field[k]));
            }
        }
        assert(field.take(k) =~= field);
    }
    if item(bytes, at, strings) is Ok {
        let language = field.take(k);
        let payload = tail.take(n);
        vstd::utf8::decode_utf8_encode_utf8(language);
        vstd::utf8::decode_utf8_encode_utf8(payload);
        assert(language.len() <= 31);
        assert(field[k] == 0u8);
        assert(field.contains(0u8));
        assert(language + seq![0u8] =~= field.take(k + 1));
        assert(n < tail.len()) by {
            if n >= tail.len() {
                let i = choose|i: int| 0 <= i < tail.len() && tail[i] == 0u8;
                assert(tail[i] != 0u8);
            }
        }
        assert(payload + seq![0u8] =~= tail.take(n + 1));
        assert forall|i: int| 0 <= i < language.len() implies language[i] != 0u8 by {
            assert(language[i] == field[i]);
        }
        assert forall|i: int| 0 <= i < payload.len() implies payload[i] != 0u8 by {
            assert(payload[i] == tail[i]);
        }
    }
}

} // verus!
