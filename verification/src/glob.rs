//! Shell-style matching in which a backslash is an ordinary character.

use vstd::prelude::*;
use vstd::utf8::encode_utf8;

use crate::text;

verus! {

/// Whether a bracket class, from position `i` on, lists a byte: by itself, or
/// in a range of three bytes with a hyphen in the middle.
pub open spec fn class_lists(class: Seq<u8>, i: int, byte: u8) -> bool
    decreases class.len() - i,
{
    if i >= class.len() || i < 0 {
        false
    } else if i + 2 < class.len() && class[i + 1] == 45 {
        (class[i] <= byte <= class[i + 2]) || class_lists(class, i + 3, byte)
    } else {
        class[i] == byte || class_lists(class, i + 1, byte)
    }
}

/// Whether a bracket class begins with a sign of negation.
pub open spec fn is_negated(class: Seq<u8>) -> bool {
    class.len() > 0 && (class[0] == 33 || class[0] == 94)
}

/// Whether a bracket class admits a byte.
pub open spec fn class_admits(class: Seq<u8>, byte: u8) -> bool {
    if is_negated(class) {
        !class_lists(class, 1, byte)
    } else {
        class_lists(class, 0, byte)
    }
}

/// Whether a pattern matches a whole value. A star stands for any run of
/// bytes, a question mark for any one byte, a bracket expression for one byte
/// of its class, and anything else for itself. A bracket that is never closed
/// stands for itself.
pub open spec fn matched(pattern: Seq<u8>, value: Seq<u8>) -> bool
    decreases pattern.len(),
{
    if pattern.len() == 0 {
        value.len() == 0
    } else {
        let rest = pattern.drop_first();
        if pattern[0] == 42 {
            exists|k: int| 0 <= k <= value.len() && matched(rest, #[trigger] value.skip(k))
        } else if value.len() == 0 {
            false
        } else if pattern[0] == 63 {
            matched(rest, value.drop_first())
        } else if pattern[0] == 91 && rest.contains(93) {
            let end = text::find(rest, 93u8);
            proof {
                text::lemma_find(rest, 93u8);
            }
            class_admits(rest.take(end), value[0]) && matched(rest.skip(end + 1), value.drop_first())
        } else {
            pattern[0] == value[0] && matched(rest, value.drop_first())
        }
    }
}

fn class_matches(class: &[u8], byte: u8) -> (r: bool)
    ensures
        r == class_admits(class@, byte),
{
    let count: usize = class.len();
    let negated = count > 0 && (class[0] == 33 || class[0] == 94);
    let first: usize = if negated {
        1
    } else {
        0
    };
    let mut found = false;
    let mut i: usize = first;
    while i < count
        invariant
            count == class@.len(),
            first <= i <= count,
            class_lists(class@, first as int, byte) == (found || class_lists(class@, i as int, byte)),
        decreases count - i,
    {
        if count - i > 2 && class[i + 1] == 45 {
            found = found || (class[i] <= byte && byte <= class[i + 2]);
            i += 3;
        } else {
            found = found || class[i] == byte;
            i += 1;
        }
    }
    found != negated
}

fn matches_bytes(pattern: &[u8], value: &[u8]) -> (r: bool)
    ensures
        r == matched(pattern@, value@),
    decreases pattern@.len(), value@.len(),
{
    if pattern.len() == 0 {
        return value.len() == 0;
    }
    let rest = vstd::slice::slice_subrange(pattern, 1, pattern.len());
    assert(rest@ =~= pattern@.drop_first());
    if pattern[0] == 42 {
        if matches_bytes(rest, value) {
            assert(value@.skip(0) =~= value@);
            return true;
        }
        if value.len() == 0 {
            assert forall|k: int| 0 <= k <= value@.len() implies !matched(rest@, #[trigger] value@.skip(k)) by {
                assert(value@.skip(k) =~= value@);
            }
            return false;
        }
        let tail = vstd::slice::slice_subrange(value, 1, value.len());
        assert(tail@ =~= value@.skip(1));
        let found = matches_bytes(pattern, tail);
        proof {
            if found {
                let k = choose|k: int| 0 <= k <= tail@.len() && matched(rest@, #[trigger] tail@.skip(k));
                assert(tail@.skip(k) =~= value@.skip(k + 1));
            } else {
                assert forall|k: int| 0 <= k <= value@.len() implies !matched(rest@, #[trigger] value@.skip(k)) by {
                    if k == 0 {
                        assert(value@.skip(0) =~= value@);
                    } else {
                        assert(value@.skip(k) =~= tail@.skip(k - 1));
                    }
                }
            }
        }
        return found;
    }
    if value.len() == 0 {
        return false;
    }
    let tail = vstd::slice::slice_subrange(value, 1, value.len());
    assert(tail@ =~= value@.drop_first());
    if pattern[0] == 63 {
        return matches_bytes(rest, tail);
    }
    if pattern[0] == 91 {
        let end = text::find_byte(rest, 0, 93);
        proof {
            assert(rest@.skip(0) =~= rest@);
            text::lemma_find(rest@, 93u8);
        }
        if end < rest.len() {
            let class = vstd::slice::slice_subrange(rest, 0, end);
            let after = vstd::slice::slice_subrange(rest, end + 1, rest.len());
            assert(class@ =~= rest@.take(end as int));
            assert(after@ =~= rest@.skip(end + 1));
            return class_matches(class, value[0]) && matches_bytes(after, tail);
        }
    }
    pattern[0] == value[0] && matches_bytes(rest, tail)
}

/// Match `value` against `pattern` using `*`, `?`, and bracket expressions.
/// Backslashes are ordinary characters.
pub fn matches_no_escape(pattern: &str, value: &str) -> (r: bool)
    ensures
        r == matched(encode_utf8(pattern@), encode_utf8(value@)),
{
    matches_bytes(pattern.as_bytes(), value.as_bytes())
}

/// A lone star matches everything.
pub proof fn law_star_matches_everything(value: Seq<u8>)
    ensures
        matched(seq![42u8], value),
{
    let pattern = seq![42u8];
    assert(pattern.drop_first() =~= Seq::<u8>::empty());
    let k = value.len() as int;
    assert(value.skip(k) =~= Seq::<u8>::empty());
    assert(matched(pattern.drop_first(), value.skip(k)));
}

/// A pattern without `*`, `?` and `[` matches itself and nothing else.
pub proof fn law_plain_pattern_matches_itself(pattern: Seq<u8>, value: Seq<u8>)
    requires
        forall|i: int| 0 <= i < pattern.len() ==> #[trigger] pattern[i] != 42 && pattern[i] != 63 && pattern[i] != 91,
    ensures
        matched(pattern, value) <==> pattern == value,
    decreases pattern.len(),
{
    if pattern.len() == 0 {
        assert(value.len() == 0 ==> value =~= pattern);
    } else if value.len() > 0 {
        let rest = pattern.drop_first();
        assert forall|i: int| 0 <= i < rest.len() implies #[trigger] rest[i] != 42 && rest[i] != 63 && rest[i] != 91 by {
            assert(rest[i] == pattern[i + 1]);
        }
        law_plain_pattern_matches_itself(rest, value.drop_first());
        assert(pattern =~= seq![pattern[0]] + rest);
        assert(value =~= seq![value[0]] + value.drop_first());
        if pattern == value {
            assert(rest =~= value.drop_first());
        }
    }
}

proof fn lemma_class_shift(front: Seq<u8>, rest: Seq<u8>, i: int, byte: u8)
    requires
        0 <= i <= rest.len(),
    ensures
        class_lists(front + rest, front.len() + i, byte) == class_lists(rest, i, byte),
    decreases rest.len() - i,
{
    let all = front + rest;
    let n = front.len() as int;
    if i < rest.len() {
        assert(all[n + i] == rest[i]);
        if i + 1 < rest.len() {
            assert(all[n + i + 1] == rest[i + 1]);
        }
        if i + 2 < rest.len() {
            assert(all[n + i + 2] == rest[i + 2]);
            lemma_class_shift(front, rest, i + 3, byte);
        }
        lemma_class_shift(front, rest, i + 1, byte);
    }
}

/// A class lists bytes one by one and as ranges, from a byte to one behind a
/// hyphen; a hyphen at an end stands for itself. An exclamation mark or a caret
/// at its beginning turns it round.
pub proof fn law_what_a_class_lists(from: u8, to: u8, rest: Seq<u8>, byte: u8)
    ensures
        !class_lists(Seq::empty(), 0, byte),
        class_lists(seq![from, 45u8, to] + rest, 0, byte) <==> from <= byte <= to || class_lists(rest, 0, byte),
        rest.len() < 2 || rest[0] != 45 ==> (class_lists(seq![from] + rest, 0, byte) <==> from == byte || class_lists(rest, 0, byte)),
        class_admits(seq![33u8] + rest, byte) <==> !class_lists(rest, 0, byte),
        class_admits(seq![94u8] + rest, byte) <==> !class_lists(rest, 0, byte),
        rest.len() == 0 || (rest[0] != 33 && rest[0] != 94) ==> (class_admits(rest, byte) <==> class_lists(rest, 0, byte)),
{
    lemma_class_shift(seq![from, 45u8, to], rest, 0, byte);
    lemma_class_shift(seq![from], rest, 0, byte);
    lemma_class_shift(seq![33u8], rest, 0, byte);
    lemma_class_shift(seq![94u8], rest, 0, byte);
}

/// What a pattern matches. A star stands for any bytes, a question mark for any
/// one byte, a class for one byte that it admits; an opening bracket that is
/// never closed, and any other byte, stand for themselves.
pub proof fn law_what_a_pattern_matches(pattern: Seq<u8>, class: Seq<u8>, c: u8, byte: u8, value: Seq<u8>)
    requires
        !class.contains(93u8),
    ensures
        matched(Seq::empty(), value) <==> value.len() == 0,
        matched(seq![42u8], value),
        matched(seq![42u8] + pattern, value) <==> matched(pattern, value) || (value.len() > 0 && matched(seq![42u8] + pattern, value.drop_first())),
        c != 42 ==> !matched(seq![c] + pattern, Seq::empty()),
        matched(seq![63u8] + pattern, seq![byte] + value) <==> matched(pattern, value),
        c != 42 && c != 63 && (c != 91 || !pattern.contains(93u8)) ==> (matched(seq![c] + pattern, seq![byte] + value) <==> c == byte && matched(pattern, value)),
        matched(seq![91u8] + class + seq![93u8] + pattern, seq![byte] + value) <==> class_admits(class, byte) && matched(pattern, value),
{
    let none = Seq::<u8>::empty();
    let v = seq![byte] + value;
    assert(v.drop_first() =~= value);
    let star = seq![42u8] + pattern;
    assert(star.drop_first() =~= pattern);
    let one = seq![63u8] + pattern;
    assert(one.drop_first() =~= pattern);
    let other = seq![c] + pattern;
    assert(other.drop_first() =~= pattern);
    lemma_star(pattern, value);
    let alone = seq![42u8];
    assert(alone.drop_first() =~= none);
    assert(matched(none, value.skip(value.len() as int)));
    let set = seq![91u8] + class + seq![93u8] + pattern;
    let rest = set.drop_first();
    assert(rest =~= class + seq![93u8] + pattern);
    let n = class.len() as int;
    assert(rest[n] == 93u8);
    assert(rest.contains(93u8));
    assert forall|i: int| 0 <= i < n implies #[trigger] rest[i] != 93u8 by {
        assert(class.contains(class[i]));
        assert(rest[i] == class[i]);
    }
    text::lemma_find_is(rest, 93u8, n);
    assert(rest.take(n) =~= class);
    assert(rest.skip(n + 1) =~= pattern);
    assert(set[0] == 91u8);
}

proof fn lemma_star(pattern: Seq<u8>, value: Seq<u8>)
    ensures
        matched(seq![42u8] + pattern, value) <==> matched(pattern, value) || (value.len() > 0 && matched(seq![42u8] + pattern, value.drop_first())),
{
    let star = seq![42u8] + pattern;
    assert(star.drop_first() =~= pattern);
    assert(value.skip(0) =~= value);
    if matched(star, value) {
        let k = choose|k: int| 0 <= k <= value.len() && matched(pattern, #[trigger] value.skip(k));
        if k > 0 {
            assert(value.drop_first().skip(k - 1) =~= value.skip(k));
        }
    }
    if value.len() > 0 && matched(star, value.drop_first()) {
        let rest = value.drop_first();
        let k = choose|k: int| 0 <= k <= rest.len() && matched(pattern, #[trigger] rest.skip(k));
        assert(rest.skip(k) =~= value.skip(k + 1));
    }
}

} // verus!
