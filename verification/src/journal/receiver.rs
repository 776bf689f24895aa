//! The journal datagram protocol.
//!
//! A datagram is a sequence of fields. Each is either `KEY=value` up to the
//! end of the line, or `KEY` on a line of its own, then a little-endian
//! 64-bit length, that many raw bytes, and a newline.
//!
//! Fields that start with `_` are trusted metadata and are never accepted
//! from the sender.

use vstd::bytes::{spec_u64_from_le_bytes, spec_u64_to_le_bytes};
use vstd::prelude::*;
use vstd::utf8::{decode_utf8, encode_utf8, valid_utf8};

use crate::journal::entry::{field_bytes, set_field, stamped, JournalEntry, Stamp};
use crate::names::NameMap;
use crate::text;

verus! {

/// The journal datagram path used by installed execution.
pub const DEFAULT_SOCKET_PATH: &'static str = "/run/rustd/journal/socket";

/// Whether a character may stand in a field name.
pub open spec fn is_field_char(c: char) -> bool {
    ('A' <= c <= 'Z') || text::is_digit(c) || c == '_'
}

/// Whether `key` is a field name that the journal can store: upper-case ASCII
/// letters, digits and underscores, at most 64 of them, not beginning with a
/// digit.
pub open spec fn is_field_name(key: Seq<char>) -> bool {
    &&& 0 < key.len() <= 64
    &&& !text::is_digit(key[0])
    &&& forall|i: int| 0 <= i < key.len() ==> is_field_char(#[trigger] key[i])
}

/// Whether `key` satisfies the field-name grammar of the journal.
pub fn valid_field_name(key: &str) -> (r: bool)
    ensures
        r == is_field_name(key@),
{
    let chars = text::chars_of(key);
    if chars.len() == 0 || chars.len() > 64 {
        return false;
    }
    if '0' <= chars[0] && chars[0] <= '9' {
        return false;
    }
    let mut i: usize = 0;
    while i < chars.len()
        invariant
            chars@ == key@,
            i <= chars@.len(),
            forall|k: int| 0 <= k < i ==> is_field_char(#[trigger] key@[k]),
        decreases chars@.len() - i,
    {
        let c = chars[i];
        if !(('A' <= c && c <= 'Z') || ('0' <= c && c <= '9') || c == '_') {
            assert(!is_field_char(key@[i as int]));
            return false;
        }
        i += 1;
    }
    true
}

/// The fields after the sender supplied one more. A name outside the grammar
/// is ignored, and so is reserved metadata.
pub open spec fn accepted(fields: Map<Seq<char>, Seq<u8>>, key: Seq<char>, value: Seq<u8>) -> Map<Seq<char>, Seq<u8>> {
    if is_field_name(key) && key[0] != '_' {
        fields.insert(key, value)
    } else {
        fields
    }
}

/// What is left of some bytes after the first `n`.
pub open spec fn after(s: Seq<u8>, n: int) -> Seq<u8> {
    if n <= s.len() {
        s.skip(n)
    } else {
        Seq::empty()
    }
}

/// The fields that a datagram carries, added to those seen so far. A name that
/// is not UTF-8 spoils the whole datagram; a value that is cut short ends it.
pub open spec fn collect(data: Seq<u8>, fields: Map<Seq<char>, Seq<u8>>) -> Option<Map<Seq<char>, Seq<u8>>>
    decreases data.len(),
{
    if data.len() == 0 {
        Some(fields)
    } else {
        let end = text::find(data, 10u8);
        let line = data.take(end);
        let rest = after(data, end + 1);
        proof {
            text::lemma_find(data, 10u8);
        }
        if line.len() == 0 {
            collect(rest, fields)
        } else {
            let eq = text::find(line, 61u8);
            let key = text::upper_case(decode_utf8(line.take(eq)));
            if !valid_utf8(line.take(eq)) {
                None
            } else if eq < line.len() {
                collect(rest, accepted(fields, key, line.skip(eq + 1)))
            } else if rest.len() < 8 {
                Some(fields)
            } else {
                let size = spec_u64_from_le_bytes(rest.take(8));
                let body = rest.skip(8);
                if size > body.len() {
                    Some(fields)
                } else {
                    collect(after(body, size + 1), accepted(fields, key, body.take(size as int)))
                }
            }
        }
    }
}

/// The fields with the sender that the kernel vouches for, where it does.
pub open spec fn with_peer(fields: Map<Seq<char>, Seq<u8>>, peer: Option<(i32, u32, u32)>) -> Map<Seq<char>, Seq<u8>> {
    match peer {
        Some((pid, uid, gid)) => fields.insert("_PID"@, encode_utf8(text::signed_decimal(pid as int))).insert(
            "_UID"@,
            encode_utf8(text::decimal(uid as nat)),
        ).insert("_GID"@, encode_utf8(text::decimal(gid as nat))),
        None => fields,
    }
}

/// The fields of an entry that came as a datagram.
pub open spec fn received(fields: Map<Seq<char>, Seq<u8>>, peer: Option<(i32, u32, u32)>) -> Map<Seq<char>, Seq<u8>> {
    with_peer(fields, peer).insert("_TRANSPORT"@, encode_utf8("journal"@))
}

/// The sender of a datagram, where the kernel attached its credentials.
pub fn trusted_peer(pid: i32, uid: u32, gid: u32) -> (r: Option<(i32, u32, u32)>)
    ensures
        r == if pid > 0 && uid != u32::MAX {
            Some((pid, uid, gid))
        } else {
            None
        },
{
    if pid > 0 && uid != u32::MAX {
        Some((pid, uid, gid))
    } else {
        None
    }
}

fn rest_after(data: &[u8], n: usize) -> (r: &[u8])
    requires
        n <= data@.len(),
    ensures
        r@ == after(data@, n + 1),
{
    let length: usize = data.len();
    if n == length {
        vstd::slice::slice_subrange(data, length, length)
    } else {
        vstd::slice::slice_subrange(data, n + 1, length)
    }
}

fn accept(fields: &mut NameMap<Vec<u8>>, name: &str, value: &[u8])
    requires
        old(fields).wf(),
    ensures
        final(fields).wf(),
        field_bytes(final(fields)@) == accepted(field_bytes(old(fields)@), text::upper_case(name@), value@),
{
    let key = text::to_upper_case(name);
    if !valid_field_name(key.as_str()) {
        return;
    }
    let first = key.as_str().get_char(0);
    if first == '_' {
        return;
    }
    set_field(fields, key.as_str(), vstd::slice::slice_to_vec(value));
}

fn collect_fields(data: &[u8]) -> (r: Option<NameMap<Vec<u8>>>)
    ensures
        match r {
            Some(fields) => fields.wf() && collect(data@, Map::empty()) == Some(field_bytes(fields@)),
            None => collect(data@, Map::empty()) is None,
        },
{
    let mut fields: NameMap<Vec<u8>> = NameMap::new();
    assert(field_bytes(fields@) =~= Map::<Seq<char>, Seq<u8>>::empty());
    let mut left: &[u8] = data;
    while left.len() > 0
        invariant_except_break
            fields.wf(),
            collect(data@, Map::empty()) == collect(left@, field_bytes(fields@)),
        ensures
            fields.wf(),
            collect(data@, Map::empty()) == Some(field_bytes(fields@)),
        decreases left@.len(),
    {
        let end = text::find_byte(left, 0, 10);
        proof {
            text::lemma_find(left@, 10u8);
        }
        assert(left@.skip(0) =~= left@);
        let line = vstd::slice::slice_subrange(left, 0, end);
        assert(line@ =~= left@.take(end as int));
        let rest = rest_after(left, end);
        if line.len() == 0 {
            left = rest;
            continue;
        }
        let eq = text::find_byte(line, 0, 61);
        assert(line@.skip(0) =~= line@);
        let name = match text::from_utf8(vstd::slice::slice_subrange(line, 0, eq)) {
            Some(name) => name,
            None => {
                assert(line@.subrange(0, eq as int) =~= line@.take(eq as int));
                return None;
            },
        };
        assert(line@.subrange(0, eq as int) =~= line@.take(eq as int));
        if eq < line.len() {
            let value = vstd::slice::slice_subrange(line, eq + 1, line.len());
            assert(value@ =~= line@.skip(eq + 1));
            accept(&mut fields, name, value);
            left = rest;
        } else {
            if rest.len() < 8 {
                break;
            }
            let head = vstd::slice::slice_subrange(rest, 0, 8);
            assert(head@ =~= rest@.take(8));
            let size: u64 = vstd::bytes::u64_from_le_bytes(head);
            let body = vstd::slice::slice_subrange(rest, 8, rest.len());
            assert(body@ =~= rest@.skip(8));
            let available: usize = body.len();
            if size > available as u64 {
                break;
            }
            let value = vstd::slice::slice_subrange(body, 0, size as usize);
            assert(value@ =~= body@.take(size as int));
            accept(&mut fields, name, value);
            left = rest_after(body, size as usize);
        }
    }
    Some(fields)
}

/// Parse a datagram into an entry. `peer` is the sender that the kernel
/// vouches for.
///
/// There is an entry exactly when every name is UTF-8 and at least one field
/// was accepted.
pub fn parse_datagram_with_peer(data: &[u8], peer: Option<(i32, u32, u32)>, stamp: &Stamp) -> (r: Option<JournalEntry>)
    ensures
        match collect(data@, Map::empty()) {
            Some(fields) if fields != Map::<Seq<char>, Seq<u8>>::empty() => r is Some && r->0.wf() && r->0@ == stamped(
                received(fields, peer),
                *stamp,
            ),
            _ => r is None,
        },
{
    let mut fields = match collect_fields(data) {
        Some(fields) => fields,
        None => return None,
    };
    let ghost collected = field_bytes(fields@);
    if fields.is_empty() {
        assert(collected =~= Map::<Seq<char>, Seq<u8>>::empty());
        return None;
    }
    proof {
        if collected == Map::<Seq<char>, Seq<u8>>::empty() {
            assert(fields@.dom() =~= collected.dom());
            assert(fields@ =~= Map::<Seq<char>, Vec<u8>>::empty());
        }
    }
    if let Some((pid, uid, gid)) = peer {
        let pid_text = text::signed_decimal_of(pid as i64);
        set_field(&mut fields, "_PID", text::bytes_of(pid_text.as_str()));
        let uid_text = text::decimal_of(uid as u128);
        set_field(&mut fields, "_UID", text::bytes_of(uid_text.as_str()));
        let gid_text = text::decimal_of(gid as u128);
        set_field(&mut fields, "_GID", text::bytes_of(gid_text.as_str()));
    }
    set_field(&mut fields, "_TRANSPORT", text::bytes_of("journal"));
    Some(JournalEntry::new(fields, stamp))
}

/// Nothing that a sender writes into a datagram reaches a field whose name is
/// outside the grammar or begins with `_`.
pub proof fn law_sender_sets_no_reserved_field(data: Seq<u8>, fields: Map<Seq<char>, Seq<u8>>)
    requires
        forall|key: Seq<char>| #[trigger] fields.dom().contains(key) ==> is_field_name(key) && key[0] != '_',
    ensures
        collect(data, fields) matches Some(collected) ==> forall|key: Seq<char>| #[trigger]
            collected.dom().contains(key) ==> is_field_name(key) && key[0] != '_',
    decreases data.len(),
{
    if data.len() > 0 {
        let end = text::find(data, 10u8);
        let line = data.take(end);
        let rest = after(data, end + 1);
        text::lemma_find(data, 10u8);
        if line.len() == 0 {
            law_sender_sets_no_reserved_field(rest, fields);
        } else {
            let eq = text::find(line, 61u8);
            let key = text::upper_case(decode_utf8(line.take(eq)));
            if valid_utf8(line.take(eq)) && eq < line.len() {
                law_sender_sets_no_reserved_field(rest, accepted(fields, key, line.skip(eq + 1)));
            } else if valid_utf8(line.take(eq)) && rest.len() >= 8 {
                let size = spec_u64_from_le_bytes(rest.take(8));
                let body = rest.skip(8);
                if size <= body.len() {
                    law_sender_sets_no_reserved_field(
                        after(body, size + 1),
                        accepted(fields, key, body.take(size as int)),
                    );
                }
            }
        }
    }
}

/// Of an entry that came as a datagram, each reserved field holds what the
/// kernel and the receiver know: the peer's credentials, the transport, and
/// the boot of the stamp.
pub proof fn law_reserved_fields_are_trusted(data: Seq<u8>, peer: Option<(i32, u32, u32)>, stamp: Stamp)
    requires
        collect(data, Map::empty()) is Some,
    ensures
        ({
            let fields = stamped(received(collect(data, Map::empty())->0, peer), stamp).fields;
            &&& fields["_TRANSPORT"@] == encode_utf8("journal"@)
            &&& fields.dom().contains("_PID"@) <==> peer is Some
            &&& peer matches Some((pid, uid, gid)) ==> fields["_PID"@] == encode_utf8(text::signed_decimal(pid as int))
                && fields["_UID"@] == encode_utf8(text::decimal(uid as nat)) && fields["_GID"@] == encode_utf8(
                text::decimal(gid as nat),
            )
            &&& fields.dom().contains("_BOOT_ID"@) <==> stamp.boot_id is Some
            &&& stamp.boot_id is Some ==> fields["_BOOT_ID"@] == encode_utf8(stamp.boot_id->0@)
            &&& !fields.dom().contains("_SYSTEMD_UNIT"@)
        }),
{
    law_sender_sets_no_reserved_field(data, Map::empty());
    reveal_strlit("_PID");
    reveal_strlit("_UID");
    reveal_strlit("_GID");
    reveal_strlit("_TRANSPORT");
    reveal_strlit("_BOOT_ID");
    reveal_strlit("_SYSTEMD_UNIT");
    assert("_PID"@[0] == '_' && "_PID"@[1] == 'P' && "_PID"@.len() == 4);
    assert("_UID"@[0] == '_' && "_UID"@[1] == 'U' && "_UID"@.len() == 4);
    assert("_GID"@[0] == '_' && "_GID"@[1] == 'G' && "_GID"@.len() == 4);
    assert("_TRANSPORT"@[0] == '_' && "_TRANSPORT"@.len() == 10);
    assert("_BOOT_ID"@[0] == '_' && "_BOOT_ID"@.len() == 8);
    assert("_SYSTEMD_UNIT"@[0] == '_' && "_SYSTEMD_UNIT"@.len() == 13);
}

/// A field as a line of text: the name, an equals sign, the value and the end
/// of the line.
pub open spec fn text_field(name: Seq<u8>, value: Seq<u8>) -> Seq<u8> {
    name.push(61) + value.push(10)
}

/// A field with its size: the name on a line of its own, the length of the
/// value in eight bytes, the least significant first, the value, and the end of
/// the line.
pub open spec fn sized_field(name: Seq<u8>, value: Seq<u8>) -> Seq<u8> {
    name.push(10) + spec_u64_to_le_bytes(value.len() as u64) + value.push(10)
}

/// Whether bytes can stand for a name in a datagram: ASCII, without an equals
/// sign and an end of line.
pub open spec fn is_sent_name(name: Seq<u8>) -> bool {
    name.len() > 0 && forall|i: int| 0 <= i < name.len() ==> #[trigger] name[i] < 128 && name[i] != 61 && name[i] != 10
}

/// The name that a sent name stands for: its letters in upper case.
pub open spec fn stored_name(name: Seq<u8>) -> Seq<char> {
    Seq::new(
        name.len(),
        |i: int|
            if 97 <= name[i] <= 122 {
                (name[i] - 32) as char
            } else {
                name[i] as char
            },
    )
}

/// Whether a sender may set a field: at most 64 letters, digits and
/// underscores, a letter first.
pub open spec fn may_be_sent(name: Seq<char>) -> bool {
    &&& 0 < name.len() <= 64
    &&& 'A' <= name[0] <= 'Z'
    &&& forall|i: int| 0 <= i < name.len() ==> ('A' <= #[trigger] name[i] <= 'Z') || ('0' <= name[i] <= '9') || name[i] == '_'
}

proof fn lemma_sent_name(name: Seq<u8>, fields: Map<Seq<char>, Seq<u8>>, value: Seq<u8>)
    requires
        is_sent_name(name),
    ensures
        valid_utf8(name),
        text::upper_case(decode_utf8(name)) == stored_name(name),
        accepted(fields, stored_name(name), value) == if may_be_sent(stored_name(name)) {
            fields.insert(stored_name(name), value)
        } else {
            fields
        },
{
    let chars = Seq::new(name.len(), |i: int| name[i] as char);
    assert(vstd::utf8::is_ascii_chars(chars));
    vstd::utf8::is_ascii_chars_encode_utf8(chars);
    assert(encode_utf8(chars) =~= name) by {
        assert forall|i: int| 0 <= i < name.len() implies encode_utf8(chars)[i] == name[i] by {
            assert(chars[i] as u8 == name[i]);
        }
    }
    vstd::utf8::encode_utf8_valid_utf8(chars);
    vstd::utf8::encode_utf8_decode_utf8(chars);
    assert(text::upper_case(chars) =~= stored_name(name));
    let key = stored_name(name);
    if may_be_sent(key) {
        assert forall|i: int| 0 <= i < key.len() implies is_field_char(#[trigger] key[i]) by {}
    }
    if is_field_name(key) && key[0] != '_' {
        assert(is_field_char(key[0]));
        assert forall|i: int| 0 <= i < key.len() implies ('A' <= #[trigger] key[i] <= 'Z') || ('0' <= key[i] <= '9') || key[i]
            == '_' by {
            assert(is_field_char(key[i]));
        }
    }
}

/// A field that is sent as a line of text is read as it was sent, and so is
/// what follows it: its value is all between the first equals sign and the end
/// of the line. A field that a sender may not set is passed over.
pub proof fn law_text_fields_read_back(name: Seq<u8>, value: Seq<u8>, rest: Seq<u8>, fields: Map<Seq<char>, Seq<u8>>)
    requires
        is_sent_name(name),
        !value.contains(10),
    ensures
        collect(text_field(name, value) + rest, fields) == collect(
            rest,
            if may_be_sent(stored_name(name)) {
                fields.insert(stored_name(name), value)
            } else {
                fields
            },
        ),
{
    let data = text_field(name, value) + rest;
    let line = name.push(61) + value;
    let end = line.len() as int;
    assert forall|i: int| 0 <= i < end implies #[trigger] data[i] != 10 by {
        if i > name.len() {
            assert(data[i] == value[i - name.len() - 1]);
        }
    }
    text::lemma_find_is(data, 10u8, end);
    assert(data.take(end) =~= line);
    assert(after(data, end + 1) =~= rest);
    assert forall|i: int| 0 <= i < name.len() implies #[trigger] line[i] != 61 by {
        assert(line[i] == name[i]);
    }
    text::lemma_find_is(line, 61u8, name.len() as int);
    assert(line.take(name.len() as int) =~= name);
    assert(line.skip(name.len() as int + 1) =~= value);
    lemma_sent_name(name, fields, value);
}

/// A field that is sent with its size is read as it was sent, whatever its
/// value holds, and so is what follows it. A field that a sender may not set is
/// passed over.
pub proof fn law_sized_fields_read_back(name: Seq<u8>, value: Seq<u8>, rest: Seq<u8>, fields: Map<Seq<char>, Seq<u8>>)
    requires
        is_sent_name(name),
        value.len() <= u64::MAX,
    ensures
        collect(sized_field(name, value) + rest, fields) == collect(
            rest,
            if may_be_sent(stored_name(name)) {
                fields.insert(stored_name(name), value)
            } else {
                fields
            },
        ),
{
    let data = sized_field(name, value) + rest;
    let size = spec_u64_to_le_bytes(value.len() as u64);
    vstd::bytes::lemma_auto_spec_u64_to_from_le_bytes();
    let end = name.len() as int;
    assert forall|i: int| 0 <= i < end implies #[trigger] data[i] != 10 by {
        assert(data[i] == name[i]);
    }
    text::lemma_find_is(data, 10u8, end);
    assert(data.take(end) =~= name);
    let left = after(data, end + 1);
    assert(left =~= size + value.push(10) + rest);
    text::lemma_find_is(name, 61u8, end);
    assert(name.take(end) =~= name);
    assert(left.take(8) =~= size);
    let body = left.skip(8);
    assert(body =~= value.push(10) + rest);
    assert(body.take(value.len() as int) =~= value);
    assert(after(body, value.len() as int + 1) =~= rest);
    lemma_sent_name(name, fields, value);
}

/// An empty line carries nothing, an empty datagram adds nothing, and a last
/// line need not end.
pub proof fn law_lines_may_be_empty_or_unended(name: Seq<u8>, value: Seq<u8>, rest: Seq<u8>, fields: Map<Seq<char>, Seq<u8>>)
    requires
        is_sent_name(name),
        !value.contains(10),
    ensures
        collect(Seq::empty(), fields) == Some(fields),
        collect(seq![10u8] + rest, fields) == collect(rest, fields),
        collect(name.push(61) + value, fields) == collect(text_field(name, value), fields),
{
    let data = seq![10u8] + rest;
    text::lemma_find_is(data, 10u8, 0);
    assert(data.take(0) =~= Seq::empty());
    assert(after(data, 1) =~= rest);
    law_text_fields_read_back(name, value, Seq::empty(), fields);
    assert(text_field(name, value) + Seq::empty() =~= text_field(name, value));
    let line = name.push(61) + value;
    assert forall|i: int| 0 <= i < line.len() implies #[trigger] line[i] != 10 by {
        if i > name.len() {
            assert(line[i] == value[i - name.len() - 1]);
        }
    }
    text::lemma_find_is(line, 10u8, line.len() as int);
    assert(line.take(line.len() as int) =~= line);
    assert forall|i: int| 0 <= i < name.len() implies #[trigger] line[i] != 61 by {
        assert(line[i] == name[i]);
    }
    text::lemma_find_is(line, 61u8, name.len() as int);
    assert(line.take(name.len() as int) =~= name);
    assert(line.skip(name.len() as int + 1) =~= value);
    lemma_sent_name(name, fields, value);
}

/// An entry keeps every field that was collected, byte for byte, with the time
/// and the number of its stamp; only reserved fields are added to them.
pub proof fn law_received_fields_are_kept(fields: Map<Seq<char>, Seq<u8>>, peer: Option<(i32, u32, u32)>, stamp: Stamp, key: Seq<char>)
    requires
        key.len() > 0,
        key[0] != '_',
    ensures
        ({
            let entry = stamped(received(fields, peer), stamp);
            &&& entry.fields.dom().contains(key) <==> fields.dom().contains(key)
            &&& fields.dom().contains(key) ==> entry.fields[key] == fields[key]
            &&& entry.realtime_usec == stamp.realtime_usec
            &&& entry.seqnum == stamp.seqnum
        }),
{
    reveal_strlit("_PID");
    reveal_strlit("_UID");
    reveal_strlit("_GID");
    reveal_strlit("_TRANSPORT");
    reveal_strlit("_BOOT_ID");
    assert("_PID"@[0] == '_' && "_UID"@[0] == '_' && "_GID"@[0] == '_' && "_TRANSPORT"@[0] == '_' && "_BOOT_ID"@[0] == '_');
}

/// The last value of a datagram need not be ended. Where it is shorter than its
/// size says, or its size is cut off, it is dropped with what would follow, and
/// what was read before it stays.
pub proof fn law_the_last_value_may_be_unended_or_cut_off(name: Seq<u8>, value: Seq<u8>, size: u64, part: Seq<u8>, fields: Map<Seq<char>, Seq<u8>>)
    requires
        is_sent_name(name),
        value.len() <= u64::MAX,
    ensures
        collect(name.push(10) + spec_u64_to_le_bytes(value.len() as u64) + value, fields) == Some(
            if may_be_sent(stored_name(name)) {
                fields.insert(stored_name(name), value)
            } else {
                fields
            },
        ),
        value.len() < size ==> collect(name.push(10) + spec_u64_to_le_bytes(size) + value, fields) == Some(fields),
        part.len() < 8 ==> collect(name.push(10) + part, fields) == Some(fields),
        collect(name, fields) == Some(fields),
{
    vstd::bytes::lemma_auto_spec_u64_to_from_le_bytes();
    let own = spec_u64_to_le_bytes(value.len() as u64);
    let other = spec_u64_to_le_bytes(size);
    lemma_name_line(name, own + value);
    lemma_name_line(name, other + value);
    lemma_name_line(name, part);
    assert(name.push(10) + own + value =~= name.push(10) + (own + value));
    assert(name.push(10) + other + value =~= name.push(10) + (other + value));
    assert((own + value).take(8) =~= own);
    assert((own + value).skip(8) =~= value);
    assert((other + value).take(8) =~= other);
    assert((other + value).skip(8) =~= value);
    assert(value.take(value.len() as int) =~= value);
    lemma_sent_name(name, fields, value);
    let none = Seq::<u8>::empty();
    assert(after(value, value.len() as int + 1) =~= none);
    assert(collect(none, fields) == Some(fields));
    assert(collect(none, fields.insert(stored_name(name), value)) == Some(fields.insert(stored_name(name), value)));
    let end = name.len() as int;
    text::lemma_find_is(name, 10u8, end);
    text::lemma_find_is(name, 61u8, end);
    assert(name.take(end) =~= name);
}

proof fn lemma_name_line(name: Seq<u8>, rest: Seq<u8>)
    requires
        is_sent_name(name),
    ensures
        ({
            let data = name.push(10) + rest;
            &&& text::find(data, 10u8) == name.len()
            &&& data.take(name.len() as int) == name
            &&& after(data, name.len() as int + 1) == rest
            &&& text::find(name, 61u8) == name.len()
            &&& name.take(name.len() as int) == name
        }),
{
    let data = name.push(10) + rest;
    let end = name.len() as int;
    assert(data[end] == 10);
    assert forall|i: int| 0 <= i < end implies #[trigger] data[i] != 10 by {
        assert(data[i] == name[i]);
    }
    text::lemma_find_is(data, 10u8, end);
    assert(data.take(end) =~= name);
    assert(after(data, end + 1) =~= rest);
    text::lemma_find_is(name, 61u8, end);
    assert(name.take(end) =~= name);
}

/// Which names fields can have: one to 64 upper-case letters, digits and
/// underscores, with no digit first.
pub proof fn law_which_names_fields_can_have(key: Seq<char>)
    ensures
        is_field_name(key) <==> 1 <= key.len() <= 64 && !('0' <= key[0] <= '9') && forall|i: int|
            0 <= i < key.len() ==> ('A' <= #[trigger] key[i] <= 'Z') || ('0' <= key[i] <= '9') || key[i] == '_',
{
    if is_field_name(key) {
        assert forall|i: int| 0 <= i < key.len() implies ('A' <= #[trigger] key[i] <= 'Z') || ('0' <= key[i] <= '9') || key[i] == '_' by {
            assert(is_field_char(key[i]));
        }
    }
}

} // verus!
