//! Process resource limits and the task limit: their grammar and their values.

use vstd::prelude::*;

use crate::sys::{self, LimitNumbers};
use crate::text;

verus! {

/// One numeric side of a process resource limit.
#[derive(Debug, Clone, Copy, PartialEq, Eq, Structural)]
pub enum RlimitValue {
    /// A finite value.
    Value(u64),
    /// No limit.
    Infinity,
}

/// Parsed soft and hard resource limits.
#[derive(Debug, Clone, Copy, PartialEq, Eq, Structural)]
pub struct RlimitSpec {
    /// The soft value.
    pub soft: RlimitValue,
    /// The hard value.
    pub hard: RlimitValue,
}

/// Grammar used by a limit.
#[derive(Debug, Clone, Copy, PartialEq, Eq, Structural)]
pub enum RlimitKind {
    /// CPU time in seconds, rounded up from sub-second values.
    Seconds,
    /// Byte quantities.
    Size,
    /// Unsigned counter values.
    Count,
    /// Nice priority resource encoding.
    Nice,
    /// Real-time CPU time in microseconds.
    Microseconds,
}

/// Whether one side of a limit is not above another.
pub open spec fn at_most(a: RlimitValue, b: RlimitValue) -> bool {
    match (a, b) {
        (_, RlimitValue::Infinity) => true,
        (RlimitValue::Infinity, RlimitValue::Value(_)) => false,
        (RlimitValue::Value(x), RlimitValue::Value(y)) => x <= y,
    }
}

/// The resource value of a nice level: with a sign it counts from 20
/// downwards, without one it is the value itself.
pub open spec fn nice_value(s: Seq<char>) -> Option<nat> {
    if s.len() > 0 && s[0] == '+' {
        match text::number_upto(s.drop_first(), u64::MAX as nat) {
            Some(nice) if nice < 20 => Some((20 - nice) as nat),
            _ => None,
        }
    } else if s.len() > 0 && s[0] == '-' {
        match text::number_upto(s.drop_first(), u64::MAX as nat) {
            Some(magnitude) if magnitude <= 20 => Some(20 + magnitude),
            _ => None,
        }
    } else {
        match text::number_upto(s, u64::MAX as nat) {
            Some(raw) if raw <= 40 => Some(raw),
            _ => None,
        }
    }
}

/// The number that one side of a limit denotes. `reading` is what the grammar
/// of time spans (in nanoseconds) or that of sizes (in bytes) makes of it.
pub open spec fn side_number(s: Seq<char>, kind: RlimitKind, reading: Option<u128>) -> Option<nat> {
    match kind {
        RlimitKind::Count => text::number_upto(s, u64::MAX as nat),
        RlimitKind::Nice => nice_value(s),
        RlimitKind::Size => match reading {
            Some(bytes) => Some(bytes as nat),
            None => None,
        },
        RlimitKind::Seconds => match reading {
            Some(ns) => Some(((ns as nat / 1000 + 999_999) / 1_000_000) as nat),
            None => None,
        },
        RlimitKind::Microseconds => match reading {
            Some(ns) => Some(ns as nat / 1000),
            None => None,
        },
    }
}

/// The value that one side of a limit denotes.
pub open spec fn side_value(s: Seq<char>, kind: RlimitKind, reading: Option<u128>) -> Option<RlimitValue> {
    if s == "infinity"@ && kind != RlimitKind::Nice {
        Some(RlimitValue::Infinity)
    } else {
        match side_number(s, kind, reading) {
            Some(raw) if raw < u64::MAX => Some(RlimitValue::Value(raw as u64)),
            _ => None,
        }
    }
}

/// What stands before the first colon of a limit.
pub open spec fn soft_side(s: Seq<char>) -> Seq<char> {
    s.take(text::find(s, ':'))
}

/// What stands behind the first colon of a limit, where there is one.
pub open spec fn hard_side(s: Seq<char>) -> Option<Seq<char>> {
    if s.contains(':') {
        Some(s.skip(text::find(s, ':') + 1))
    } else {
        None
    }
}

/// The limit that a text denotes: a soft side, and a hard side after a colon
/// where it differs. The soft side may not be above the hard one.
pub open spec fn limit_of(s: Seq<char>, kind: RlimitKind, soft: Option<u128>, hard: Option<u128>) -> Option<RlimitSpec> {
    match (side_value(soft_side(s), kind, soft), hard_side(s)) {
        (Some(both), None) => Some(RlimitSpec { soft: both, hard: both }),
        (Some(soft), Some(rest)) => match side_value(rest, kind, hard) {
            Some(hard) if !rest.contains(':') && at_most(soft, hard) => Some(RlimitSpec { soft, hard }),
            _ => None,
        },
        _ => None,
    }
}

/// The two sides of a limit as they are written.
pub fn rlimit_sides(s: &str) -> (r: (String, Option<String>))
    ensures
        r.0@ == soft_side(s@),
        text::opt_view(r.1) == hard_side(s@),
{
    let chars = text::chars_of(s);
    let colon = text::find_from(&chars, 0, ':');
    proof {
        assert(chars@.skip(0) =~= chars@);
        text::lemma_find(chars@, ':');
    }
    let soft = text::substring(&chars, 0, colon);
    assert(soft@ =~= soft_side(s@));
    if colon < chars.len() {
        let hard = text::substring(&chars, colon + 1, chars.len());
        assert(hard@ =~= s@.skip(colon + 1));
        (soft, Some(hard))
    } else {
        (soft, None)
    }
}

fn parse_rlimit_nice(value: &str) -> (r: Option<u64>)
    ensures
        match r {
            Some(n) => nice_value(value@) == Some(n as nat),
            None => nice_value(value@) is None,
        },
{
    let chars = text::chars_of(value);
    if chars.len() > 0 && (chars[0] == '+' || chars[0] == '-') {
        let rest = text::substring(&chars, 1, chars.len());
        assert(rest@ =~= value@.drop_first());
        match text::parse_number(rest.as_str(), u64::MAX) {
            Some(n) => {
                if chars[0] == '+' {
                    if n < 20 {
                        Some(20 - n)
                    } else {
                        None
                    }
                } else if n <= 20 {
                    Some(20 + n)
                } else {
                    None
                }
            },
            None => None,
        }
    } else {
        match text::parse_number(value, u64::MAX) {
            Some(n) => {
                if n <= 40 {
                    Some(n)
                } else {
                    None
                }
            },
            None => None,
        }
    }
}

fn parse_rlimit_value(value: &str, kind: RlimitKind, reading: Option<u128>) -> (r: Option<RlimitValue>)
    ensures
        r == side_value(value@, kind, reading),
{
    if text::same(value, "infinity") && kind != RlimitKind::Nice {
        return Some(RlimitValue::Infinity);
    }
    let raw: Option<u128> = match kind {
        RlimitKind::Count => match text::parse_number(value, u64::MAX) {
            Some(n) => Some(n as u128),
            None => None,
        },
        RlimitKind::Nice => match parse_rlimit_nice(value) {
            Some(n) => Some(n as u128),
            None => None,
        },
        RlimitKind::Size => reading,
        RlimitKind::Seconds => match reading {
            Some(ns) => Some((ns / 1000 + 999_999) / 1_000_000),
            None => None,
        },
        RlimitKind::Microseconds => match reading {
            Some(ns) => Some(ns / 1000),
            None => None,
        },
    };
    match raw {
        Some(n) => {
            if n < u64::MAX as u128 {
                Some(RlimitValue::Value(n as u64))
            } else {
                None
            }
        },
        None => None,
    }
}

fn not_above(a: RlimitValue, b: RlimitValue) -> (r: bool)
    ensures
        r == at_most(a, b),
{
    match (a, b) {
        (_, RlimitValue::Infinity) => true,
        (RlimitValue::Infinity, RlimitValue::Value(_)) => false,
        (RlimitValue::Value(x), RlimitValue::Value(y)) => x <= y,
    }
}

impl RlimitSpec {
    /// Parse `soft[:hard]`. For the kinds that are written as time spans or
    /// sizes, `soft` and `hard` are what those grammars read on each side, in
    /// nanoseconds or bytes.
    pub fn parse(s: &str, kind: RlimitKind, soft: Option<u128>, hard: Option<u128>) -> (r: Option<Self>)
        ensures
            r == limit_of(s@, kind, soft, hard),
    {
        let sides = rlimit_sides(s);
        let soft_value = match parse_rlimit_value(sides.0.as_str(), kind, soft) {
            Some(value) => value,
            None => return None,
        };
        match &sides.1 {
            None => Some(RlimitSpec { soft: soft_value, hard: soft_value }),
            Some(rest) => {
                let hard_value = match parse_rlimit_value(rest.as_str(), kind, hard) {
                    Some(value) => value,
                    None => return None,
                };
                let chars = text::chars_of(rest.as_str());
                let colon = text::find_from(&chars, 0, ':');
                proof {
                    assert(chars@.skip(0) =~= chars@);
                    text::lemma_find(chars@, ':');
                }
                if colon < chars.len() || !not_above(soft_value, hard_value) {
                    return None;
                }
                Some(RlimitSpec { soft: soft_value, hard: hard_value })
            },
        }
    }
}

/// A parsed limit never has its soft side above its hard side, and no finite
/// side is the number that stands for no limit.
pub proof fn law_limits_are_ordered(s: Seq<char>, kind: RlimitKind, soft: Option<u128>, hard: Option<u128>)
    ensures
        limit_of(s, kind, soft, hard) matches Some(limit) ==> at_most(limit.soft, limit.hard) && limit.soft
            != RlimitValue::Value(u64::MAX) && limit.hard != RlimitValue::Value(u64::MAX),
{
}

/// One term of a size: a number as it is written, and what its unit multiplies
/// it by.
#[derive(Debug)]
pub struct SizeTerm {
    pub number: String,
    pub factor: u64,
}

/// What a term of a size is.
pub struct SizeTermView {
    pub number: Seq<char>,
    pub factor: u64,
}

impl View for SizeTerm {
    type V = SizeTermView;

    open spec fn view(&self) -> SizeTermView {
        SizeTermView { number: self.number@, factor: self.factor }
    }
}

/// What a unit of size multiplies by. Units are binary, in any case.
pub open spec fn size_factor(unit: Seq<char>) -> Option<u64> {
    let name = text::upper_case(unit);
    if name == ""@ || name == "B"@ {
        Some(1)
    } else if name == "K"@ || name == "KB"@ || name == "KIB"@ {
        Some(0x400)
    } else if name == "M"@ || name == "MB"@ || name == "MIB"@ {
        Some(0x10_0000)
    } else if name == "G"@ || name == "GB"@ || name == "GIB"@ {
        Some(0x4000_0000)
    } else if name == "T"@ || name == "TB"@ || name == "TIB"@ {
        Some(0x100_0000_0000)
    } else if name == "P"@ || name == "PB"@ || name == "PIB"@ {
        Some(0x4_0000_0000_0000)
    } else if name == "E"@ || name == "EB"@ || name == "EIB"@ {
        Some(0x1000_0000_0000_0000)
    } else {
        None
    }
}

/// Whether a character belongs to a number of a size.
pub open spec fn is_number_char(c: char) -> bool {
    text::is_digit(c) || c == '.'
}

/// Whether a character belongs to a unit.
pub open spec fn is_unit_char(c: char) -> bool {
    ('a' <= c <= 'z') || ('A' <= c <= 'Z')
}

/// How many characters at the start belong to a number.
pub open spec fn number_len(s: Seq<char>) -> nat
    decreases s.len(),
{
    if s.len() > 0 && is_number_char(s[0]) {
        1 + number_len(s.drop_first())
    } else {
        0
    }
}

/// How many characters at the start belong to a unit.
pub open spec fn unit_len(s: Seq<char>) -> nat
    decreases s.len(),
{
    if s.len() > 0 && is_unit_char(s[0]) {
        1 + unit_len(s.drop_first())
    } else {
        0
    }
}

proof fn lemma_number_len(s: Seq<char>, n: int)
    requires
        0 <= n <= s.len(),
        forall|i: int| 0 <= i < n ==> is_number_char(#[trigger] s[i]),
        n < s.len() ==> !is_number_char(s[n]),
    ensures
        number_len(s) == n,
    decreases s.len(),
{
    if n > 0 {
        let rest = s.drop_first();
        assert(is_number_char(s[0]));
        assert forall|i: int| 0 <= i < n - 1 implies is_number_char(#[trigger] rest[i]) by {
            assert(is_number_char(s[i + 1]));
        }
        lemma_number_len(rest, n - 1);
    }
}

proof fn lemma_unit_len(s: Seq<char>, n: int)
    requires
        0 <= n <= s.len(),
        forall|i: int| 0 <= i < n ==> is_unit_char(#[trigger] s[i]),
        n < s.len() ==> !is_unit_char(s[n]),
    ensures
        unit_len(s) == n,
    decreases s.len(),
{
    if n > 0 {
        let rest = s.drop_first();
        assert(is_unit_char(s[0]));
        assert forall|i: int| 0 <= i < n - 1 implies is_unit_char(#[trigger] rest[i]) by {
            assert(is_unit_char(s[i + 1]));
        }
        lemma_unit_len(rest, n - 1);
    }
}

/// A run of characters is no longer than the text.
pub proof fn lemma_lens(s: Seq<char>)
    ensures
        number_len(s) <= s.len(),
        unit_len(s) <= s.len(),
    decreases s.len(),
{
    if s.len() > 0 {
        lemma_lens(s.drop_first());
    }
}

/// Trimming makes no text longer.
pub proof fn lemma_trim_start_len(s: Seq<char>)
    ensures
        text::trim_start(s).len() <= s.len(),
    decreases s.len(),
{
    if s.len() > 0 {
        lemma_trim_start_len(s.drop_first());
    }
}

/// The terms of a size: each a number with an optional unit, the terms set off
/// by white space. Nothing where the text is not of that form.
pub open spec fn terms_of(s: Seq<char>) -> Option<Seq<SizeTermView>>
    decreases s.len(),
{
    if s.len() == 0 {
        Some(Seq::empty())
    } else {
        let input = text::trim_start(s);
        let digits = number_len(input) as int;
        let behind = input.skip(digits);
        let letters = unit_len(behind) as int;
        let rest = behind.skip(letters);
        proof {
            lemma_trim_start_len(s);
            lemma_lens(input);
            lemma_lens(behind);
        }
        if digits == 0 {
            None
        } else {
            match size_factor(behind.take(letters)) {
                Some(factor) if rest.len() == 0 || text::is_white_space(rest[0]) => match terms_of(rest) {
                    Some(more) => Some(seq![SizeTermView { number: input.take(digits), factor }] + more),
                    None => None,
                },
                _ => None,
            }
        }
    }
}

fn unit_factor(unit: &str) -> (r: Option<u64>)
    ensures
        r == size_factor(unit@),
{
    let name = text::to_upper_case(unit);
    let n = name.as_str();
    if text::same(n, "") || text::same(n, "B") {
        Some(1)
    } else if text::same(n, "K") || text::same(n, "KB") || text::same(n, "KIB") {
        Some(0x400)
    } else if text::same(n, "M") || text::same(n, "MB") || text::same(n, "MIB") {
        Some(0x10_0000)
    } else if text::same(n, "G") || text::same(n, "GB") || text::same(n, "GIB") {
        Some(0x4000_0000)
    } else if text::same(n, "T") || text::same(n, "TB") || text::same(n, "TIB") {
        Some(0x100_0000_0000)
    } else if text::same(n, "P") || text::same(n, "PB") || text::same(n, "PIB") {
        Some(0x4_0000_0000_0000)
    } else if text::same(n, "E") || text::same(n, "EB") || text::same(n, "EIB") {
        Some(0x1000_0000_0000_0000)
    } else {
        None
    }
}

/// The views of the terms of a size.
pub open spec fn term_views(terms: Seq<SizeTerm>) -> Seq<SizeTermView> {
    terms.map_values(|t: SizeTerm| t@)
}

/// The terms of a size, such as `1.5G` or `1M 512K`. Nothing where the text is
/// empty or not of that form. The numbers are as written; what they add up to
/// is for the caller to work out.
pub fn size_terms(value: &str) -> (r: Option<Vec<SizeTerm>>)
    ensures
        match r {
            Some(terms) => text::trimmed(value@).len() > 0 && terms_of(text::trimmed(value@)) == Some(
                term_views(terms@),
            ),
            None => text::trimmed(value@).len() == 0 || terms_of(text::trimmed(value@)) is None,
        },
{
    let input = text::trim(value);
    let chars = text::chars_of(input.as_str());
    let count: usize = chars.len();
    if count == 0 {
        return None;
    }
    let mut terms: Vec<SizeTerm> = Vec::new();
    let mut at: usize = 0;
    let ghost all = chars@;
    assert(all.skip(0) =~= all);
    assert(term_views(terms@) =~= Seq::empty());
    proof {
        if terms_of(all) is Some {
            assert(Seq::empty() + terms_of(all)->0 =~= terms_of(all)->0);
        }
    }
    while at < count
        invariant
            count == chars@.len(),
            all == chars@,
            all == text::trimmed(value@),
            at <= count,
            match terms_of(all.skip(at as int)) {
                Some(more) => terms_of(all) == Some(term_views(terms@) + more),
                None => terms_of(all) is None,
            },
        decreases count - at,
    {
        let ghost s = all.skip(at as int);
        let mut start: usize = at;
        while start < count && text::white_space(chars[start])
            invariant
                count == chars@.len(),
                all == chars@,
                at <= start <= count,
                text::trim_start(s) == text::trim_start(all.skip(start as int)),
            decreases count - start,
        {
            assert(all.skip(start as int).drop_first() =~= all.skip(start + 1));
            start += 1;
        }
        assert(text::trim_start(s) =~= all.skip(start as int));
        let ghost input = all.skip(start as int);
        let mut end: usize = start;
        while end < count && (('0' <= chars[end] && chars[end] <= '9') || chars[end] == '.')
            invariant
                count == chars@.len(),
                all == chars@,
                start <= end <= count,
                forall|i: int| start <= i < end ==> is_number_char(#[trigger] all[i]),
            decreases count - end,
        {
            end += 1;
        }
        proof {
            assert forall|i: int| 0 <= i < end - start implies is_number_char(#[trigger] input[i]) by {
                assert(is_number_char(all[start + i]));
            }
            lemma_number_len(input, end - start);
        }
        if end == start {
            return None;
        }
        let ghost behind = input.skip(end - start);
        assert(behind =~= all.skip(end as int));
        let mut stop: usize = end;
        while stop < count && (('a' <= chars[stop] && chars[stop] <= 'z') || ('A' <= chars[stop] && chars[stop] <= 'Z'))
            invariant
                count == chars@.len(),
                all == chars@,
                end <= stop <= count,
                forall|i: int| end <= i < stop ==> is_unit_char(#[trigger] all[i]),
            decreases count - stop,
        {
            stop += 1;
        }
        proof {
            assert forall|i: int| 0 <= i < stop - end implies is_unit_char(#[trigger] behind[i]) by {
                assert(is_unit_char(all[end + i]));
            }
            lemma_unit_len(behind, stop - end);
        }
        let unit = text::substring(&chars, end, stop);
        assert(unit@ =~= behind.take(stop - end));
        let ghost rest = behind.skip(stop - end);
        assert(rest =~= all.skip(stop as int));
        let factor: u64 = match unit_factor(unit.as_str()) {
            Some(factor) => factor,
            None => return None,
        };
        if stop < count && !text::white_space(chars[stop]) {
            assert(rest[0] == all[stop as int]);
            return None;
        }
        let number = text::substring(&chars, start, end);
        assert(number@ =~= input.take(end - start));
        let ghost before = term_views(terms@);
        let term = SizeTerm { number, factor };
        terms.push(term);
        proof {
            assert(term_views(terms@) =~= before.push(term@));
            if terms_of(rest) is Some {
                let more = terms_of(rest)->0;
                assert(before + (seq![term@] + more) =~= term_views(terms@) + more);
            }
        }
        at = stop;
    }
    assert(all.skip(at as int) =~= Seq::empty());
    assert(term_views(terms@) + Seq::empty() =~= term_views(terms@));
    Some(terms)
}

/// The 16 limited resources.
#[derive(Debug, Clone, Copy, PartialEq, Eq, Structural)]
pub enum RlimitResource {
    Cpu,
    Fsize,
    Data,
    Stack,
    Core,
    Rss,
    Nofile,
    As,
    Nproc,
    Memlock,
    Locks,
    Sigpending,
    Msgqueue,
    Nice,
    Rtprio,
    Rttime,
}

/// All resources in the order of the configuration.
pub const ALL: [RlimitResource; 16] = [
    RlimitResource::Cpu,
    RlimitResource::Fsize,
    RlimitResource::Data,
    RlimitResource::Stack,
    RlimitResource::Core,
    RlimitResource::Rss,
    RlimitResource::Nofile,
    RlimitResource::As,
    RlimitResource::Nproc,
    RlimitResource::Memlock,
    RlimitResource::Locks,
    RlimitResource::Sigpending,
    RlimitResource::Msgqueue,
    RlimitResource::Nice,
    RlimitResource::Rtprio,
    RlimitResource::Rttime,
];

impl RlimitResource {
    /// Where a resource stands in the order of the configuration.
    pub fn index(self) -> (r: usize)
        ensures
            r < 16,
            ALL[r as int] == self,
    {
        match self {
            RlimitResource::Cpu => 0,
            RlimitResource::Fsize => 1,
            RlimitResource::Data => 2,
            RlimitResource::Stack => 3,
            RlimitResource::Core => 4,
            RlimitResource::Rss => 5,
            RlimitResource::Nofile => 6,
            RlimitResource::As => 7,
            RlimitResource::Nproc => 8,
            RlimitResource::Memlock => 9,
            RlimitResource::Locks => 10,
            RlimitResource::Sigpending => 11,
            RlimitResource::Msgqueue => 12,
            RlimitResource::Nice => 13,
            RlimitResource::Rtprio => 14,
            RlimitResource::Rttime => 15,
        }
    }

    /// The name of a resource in configuration keys.
    pub open spec fn name(self) -> Seq<char> {
        match self {
            RlimitResource::Cpu => "CPU"@,
            RlimitResource::Fsize => "FSIZE"@,
            RlimitResource::Data => "DATA"@,
            RlimitResource::Stack => "STACK"@,
            RlimitResource::Core => "CORE"@,
            RlimitResource::Rss => "RSS"@,
            RlimitResource::Nofile => "NOFILE"@,
            RlimitResource::As => "AS"@,
            RlimitResource::Nproc => "NPROC"@,
            RlimitResource::Memlock => "MEMLOCK"@,
            RlimitResource::Locks => "LOCKS"@,
            RlimitResource::Sigpending => "SIGPENDING"@,
            RlimitResource::Msgqueue => "MSGQUEUE"@,
            RlimitResource::Nice => "NICE"@,
            RlimitResource::Rtprio => "RTPRIO"@,
            RlimitResource::Rttime => "RTTIME"@,
        }
    }

    /// The name of a resource in configuration keys.
    pub fn key(self) -> (r: &'static str)
        ensures
            r@ == self.name(),
    {
        match self {
            RlimitResource::Cpu => "CPU",
            RlimitResource::Fsize => "FSIZE",
            RlimitResource::Data => "DATA",
            RlimitResource::Stack => "STACK",
            RlimitResource::Core => "CORE",
            RlimitResource::Rss => "RSS",
            RlimitResource::Nofile => "NOFILE",
            RlimitResource::As => "AS",
            RlimitResource::Nproc => "NPROC",
            RlimitResource::Memlock => "MEMLOCK",
            RlimitResource::Locks => "LOCKS",
            RlimitResource::Sigpending => "SIGPENDING",
            RlimitResource::Msgqueue => "MSGQUEUE",
            RlimitResource::Nice => "NICE",
            RlimitResource::Rtprio => "RTPRIO",
            RlimitResource::Rttime => "RTTIME",
        }
    }

    /// Grammar of a resource's configuration value.
    pub fn kind(self) -> (r: RlimitKind)
        ensures
            r == match self {
                RlimitResource::Cpu => RlimitKind::Seconds,
                RlimitResource::Nofile | RlimitResource::Nproc | RlimitResource::Locks | RlimitResource::Sigpending
                | RlimitResource::Rtprio => RlimitKind::Count,
                RlimitResource::Nice => RlimitKind::Nice,
                RlimitResource::Rttime => RlimitKind::Microseconds,
                _ => RlimitKind::Size,
            },
    {
        match self {
            RlimitResource::Cpu => RlimitKind::Seconds,
            RlimitResource::Fsize
            | RlimitResource::Data
            | RlimitResource::Stack
            | RlimitResource::Core
            | RlimitResource::Rss
            | RlimitResource::As
            | RlimitResource::Memlock
            | RlimitResource::Msgqueue => RlimitKind::Size,
            RlimitResource::Nofile
            | RlimitResource::Nproc
            | RlimitResource::Locks
            | RlimitResource::Sigpending
            | RlimitResource::Rtprio => RlimitKind::Count,
            RlimitResource::Nice => RlimitKind::Nice,
            RlimitResource::Rttime => RlimitKind::Microseconds,
        }
    }

    /// The kernel's number of a resource, on a machine with these numbers.
    pub open spec fn number(self, numbers: LimitNumbers) -> u32 {
        match self {
            RlimitResource::Cpu => 0u32,
            RlimitResource::Fsize => 1,
            RlimitResource::Data => 2,
            RlimitResource::Stack => 3,
            RlimitResource::Core => 4,
            RlimitResource::Rss => numbers.rss,
            RlimitResource::Nproc => numbers.nproc,
            RlimitResource::Nofile => numbers.nofile,
            RlimitResource::Memlock => numbers.memlock,
            RlimitResource::As => numbers.address_space,
            RlimitResource::Locks => 10,
            RlimitResource::Sigpending => 11,
            RlimitResource::Msgqueue => 12,
            RlimitResource::Nice => 13,
            RlimitResource::Rtprio => 14,
            RlimitResource::Rttime => 15,
        }
    }

    /// The kernel's number of a resource, on this machine.
    pub fn libc_resource(self) -> (r: u32)
        ensures
            exists|numbers: LimitNumbers| numbers.on_linux() && r == #[trigger] self.number(numbers),
    {
        self.libc_resource_with(&sys::limit_numbers())
    }

    /// The kernel's number of a resource, on a machine with the given numbers.
    pub fn libc_resource_with(self, numbers: &LimitNumbers) -> (r: u32)
        ensures
            r == self.number(*numbers),
    {
        match self {
            RlimitResource::Cpu => 0u32,
            RlimitResource::Fsize => 1,
            RlimitResource::Data => 2,
            RlimitResource::Stack => 3,
            RlimitResource::Core => 4,
            RlimitResource::Rss => numbers.rss,
            RlimitResource::Nproc => numbers.nproc,
            RlimitResource::Nofile => numbers.nofile,
            RlimitResource::Memlock => numbers.memlock,
            RlimitResource::As => numbers.address_space,
            RlimitResource::Locks => 10,
            RlimitResource::Sigpending => 11,
            RlimitResource::Msgqueue => 12,
            RlimitResource::Nice => 13,
            RlimitResource::Rtprio => 14,
            RlimitResource::Rttime => 15,
        }
    }
}

/// On every machine different resources have different numbers, all below
/// sixteen.
pub proof fn law_resource_numbers_are_distinct(a: RlimitResource, b: RlimitResource, numbers: LimitNumbers)
    requires
        numbers.on_linux(),
    ensures
        a.number(numbers) < 16,
        a != b ==> a.number(numbers) != b.number(numbers),
{
}

/// A task limit. A scale of zero means an absolute value.
#[derive(Debug, Clone, Copy, PartialEq, Eq, Structural)]
pub struct TasksMaxSpec {
    /// Absolute value or numerator.
    pub value: u64,
    /// Denominator, or zero for an absolute value.
    pub scale: u64,
}

impl Default for TasksMaxSpec {
    fn default() -> (r: Self)
        ensures
            r == (TasksMaxSpec { value: 15, scale: 100 }),
    {
        TasksMaxSpec { value: 15, scale: 100 }
    }
}

/// Ten to a small power.
pub open spec fn pow10(n: int) -> nat {
    if n <= 0 {
        1
    } else if n == 1 {
        10
    } else {
        100
    }
}

/// The ten-thousandths that a number denotes whose whole part counts
/// `multiplier` of them and which has at most `precision` decimals.
pub open spec fn fraction_of(number: Seq<char>, multiplier: nat, precision: int) -> Option<nat> {
    let dot = text::find(number, '.');
    let whole = number.take(dot);
    let decimals = if dot < number.len() {
        number.skip(dot + 1)
    } else {
        Seq::empty()
    };
    if !text::is_digits(whole) || decimals.len() > precision || (dot < number.len() && !text::is_digits(decimals)) {
        None
    } else {
        let result = text::digits_value(whole) * multiplier + text::digits_value(decimals) * pow10(
            precision - decimals.len(),
        );
        if result <= 10_000 {
            Some(result)
        } else {
            None
        }
    }
}

/// The ten-thousandths that a text denotes: a number of them, of thousandths
/// or of hundredths, each with its sign, and not above the whole.
pub open spec fn permyriad(value: Seq<char>) -> Option<nat> {
    if value.len() == 0 {
        None
    } else if value.last() == '\u{2031}' {
        fraction_of(value.drop_last(), 1, 0)
    } else if value.last() == '\u{2030}' {
        fraction_of(value.drop_last(), 10, 1)
    } else if value.last() == '%' {
        fraction_of(value.drop_last(), 100, 2)
    } else {
        None
    }
}

fn only_digits(chars: &[char]) -> (r: bool)
    ensures
        r == text::is_digits(chars@),
{
    if chars.len() == 0 {
        return false;
    }
    let mut i: usize = 0;
    while i < chars.len()
        invariant
            i <= chars@.len(),
            forall|k: int| 0 <= k < i ==> text::is_digit(#[trigger] chars@[k]),
        decreases chars@.len() - i,
    {
        if !('0' <= chars[i] && chars[i] <= '9') {
            return false;
        }
        i += 1;
    }
    true
}

/// The value of a run of digits, where it is not above the whole.
fn small_number(chars: &[char]) -> (r: Option<u64>)
    ensures
        match r {
            Some(n) => text::is_digits(chars@) && n == text::digits_value(chars@) && n <= 10_000,
            None => !text::is_digits(chars@) || text::digits_value(chars@) > 10_000,
        },
{
    if !only_digits(chars) {
        return None;
    }
    assert(text::is_digit(chars@[0]));
    let digits = text::substring(chars, 0, chars.len());
    assert(digits@ =~= chars@);
    text::parse_number(digits.as_str(), 10_000)
}

fn parse_fraction(number: &[char], multiplier: u64, precision: usize) -> (r: Option<u64>)
    requires
        1 <= multiplier <= 100,
        precision <= 2,
    ensures
        match r {
            Some(n) => fraction_of(number@, multiplier as nat, precision as int) == Some(n as nat),
            None => fraction_of(number@, multiplier as nat, precision as int) is None,
        },
{
    let count: usize = number.len();
    let dot = text::find_from(number, 0, '.');
    proof {
        assert(number@.skip(0) =~= number@);
        text::lemma_find(number@, '.');
    }
    let whole = vstd::slice::slice_subrange(number, 0, dot);
    assert(whole@ =~= number@.take(dot as int));
    let from: usize = if dot < count {
        dot + 1
    } else {
        count
    };
    let decimals = vstd::slice::slice_subrange(number, from, count);
    let ghost dec = if dot < number@.len() {
        number@.skip(dot + 1)
    } else {
        Seq::empty()
    };
    assert(decimals@ =~= dec);
    if decimals.len() > precision {
        return None;
    }
    let missing: usize = precision - decimals.len();
    let scale: u64 = if missing == 0 {
        1
    } else if missing == 1 {
        10
    } else {
        100
    };
    let whole_value: u64 = match small_number(whole) {
        Some(n) => n,
        None => {
            proof {
                let w = text::digits_value(whole@);
                assert(w > 10_000 ==> w * multiplier as nat > 10_000) by (nonlinear_arith)
                    requires
                        multiplier >= 1,
                ;
            }
            return None;
        },
    };
    let fraction: u64 = if dot < count {
        match small_number(decimals) {
            Some(n) => n,
            None => {
                proof {
                    let d = text::digits_value(decimals@);
                    assert(d > 10_000 ==> d * scale as nat > 10_000) by (nonlinear_arith)
                        requires
                            scale >= 1,
                    ;
                    assert(text::digits_value(whole@) * multiplier as nat >= 0) by (nonlinear_arith);
                }
                return None;
            },
        }
    } else {
        assert(text::digits_value(decimals@) == 0);
        0
    };
    assert(whole_value * multiplier <= 10_000 * 100) by (nonlinear_arith)
        requires
            whole_value <= 10_000,
            multiplier <= 100,
    ;
    assert(fraction * scale <= 10_000 * 100) by (nonlinear_arith)
        requires
            fraction <= 10_000,
            scale <= 100,
    ;
    let result: u64 = whole_value * multiplier + fraction * scale;
    if result <= 10_000 {
        Some(result)
    } else {
        None
    }
}

/// The ten-thousandths that a text denotes.
pub fn parse_permyriad(value: &str) -> (r: Option<u64>)
    ensures
        match r {
            Some(n) => permyriad(value@) == Some(n as nat),
            None => permyriad(value@) is None,
        },
{
    let chars = text::chars_of(value);
    let count: usize = chars.len();
    if count == 0 {
        return None;
    }
    let number = vstd::slice::slice_subrange(&chars, 0, count - 1);
    assert(number@ =~= value@.drop_last());
    let sign = chars[count - 1];
    if sign == '\u{2031}' {
        parse_fraction(number, 1, 0)
    } else if sign == '\u{2030}' {
        parse_fraction(number, 10, 1)
    } else if sign == '%' {
        parse_fraction(number, 100, 2)
    } else {
        None
    }
}

/// The task limit that a text denotes: nothing or `infinity` for none, a
/// fraction of the capacity, or a number.
pub open spec fn tasks_max_of(value: Seq<char>) -> Option<TasksMaxSpec> {
    let s = text::trimmed(value);
    if s.len() == 0 || s == "infinity"@ {
        Some(TasksMaxSpec { value: u64::MAX, scale: 0 })
    } else {
        match permyriad(s) {
            Some(numerator) => Some(TasksMaxSpec { value: numerator as u64, scale: 10_000 }),
            None => match text::number_upto(s, u64::MAX as nat) {
                Some(n) if 0 < n < u64::MAX => Some(TasksMaxSpec { value: n as u64, scale: 0 }),
                _ => None,
            },
        }
    }
}

/// The number of tasks that a limit allows where the system can run
/// `capacity`.
pub open spec fn tasks_allowed(limit: TasksMaxSpec, capacity: u64) -> nat {
    if limit.scale == 0 {
        limit.value as nat
    } else {
        let share = (capacity * limit.value) / limit.scale as int;
        if share > u64::MAX {
            u64::MAX as nat
        } else {
            share as nat
        }
    }
}

impl TasksMaxSpec {
    /// No limit.
    pub fn unlimited() -> (r: Self)
        ensures
            r == (TasksMaxSpec { value: u64::MAX, scale: 0 }),
    {
        TasksMaxSpec { value: u64::MAX, scale: 0 }
    }

    /// Parse a task limit.
    pub fn parse(value: &str) -> (r: Option<Self>)
        ensures
            r == tasks_max_of(value@),
    {
        let value = text::trim(value);
        let s = value.as_str();
        if s.is_empty() || text::same(s, "infinity") {
            return Some(TasksMaxSpec::unlimited());
        }
        if let Some(numerator) = parse_permyriad(s) {
            return Some(TasksMaxSpec { value: numerator, scale: 10_000 });
        }
        match text::parse_number(s, u64::MAX) {
            Some(n) => {
                if 0 < n && n < u64::MAX {
                    Some(TasksMaxSpec { value: n, scale: 0 })
                } else {
                    None
                }
            },
            None => None,
        }
    }

    /// The number of tasks that this limit allows where the system can run
    /// `capacity`.
    pub fn resolve(self, capacity: u64) -> (r: u64)
        ensures
            r == tasks_allowed(self, capacity),
    {
        if self.scale == 0 {
            return self.value;
        }
        assert(capacity * self.value <= 0xffff_ffff_ffff_ffff * 0xffff_ffff_ffff_ffff) by (nonlinear_arith)
            requires
                capacity <= 0xffff_ffff_ffff_ffff,
                self.value <= 0xffff_ffff_ffff_ffff,
        ;
        let share: u128 = (capacity as u128 * self.value as u128) / self.scale as u128;
        if share > u64::MAX as u128 {
            u64::MAX
        } else {
            share as u64
        }
    }
}

/// A share of the capacity is never more than the capacity.
pub proof fn law_share_is_within_capacity(value: Seq<char>, capacity: u64)
    ensures
        tasks_max_of(value) matches Some(limit) ==> limit.scale != 0 ==> tasks_allowed(limit, capacity) <= capacity,
{
    if tasks_max_of(value) is Some {
        let limit = tasks_max_of(value)->0;
        if limit.scale != 0 {
            assert((capacity * limit.value) / 10_000 <= capacity) by (nonlinear_arith)
                requires
                    limit.value <= 10_000,
                    capacity >= 0,
            ;
        }
    }
}

/// The number in a file of the kernel, where it could be read and is one.
pub open spec fn reading(content: Option<Seq<char>>) -> Option<nat> {
    match content {
        Some(s) => text::number_upto(text::trimmed(s), u64::MAX as nat),
        None => None,
    }
}

/// The view of a file's content.
pub open spec fn content_view(content: Option<&str>) -> Option<Seq<char>> {
    match content {
        Some(s) => Some(s@),
        None => None,
    }
}

/// A reading, or no bound.
pub open spec fn or_unbounded(reading: Option<nat>) -> nat {
    match reading {
        Some(n) => n,
        None => u64::MAX as nat,
    }
}

/// The number in a file of the kernel, where it could be read and is one.
pub fn read_u64(content: Option<&str>) -> (r: Option<u64>)
    ensures
        match r {
            Some(n) => reading(content_view(content)) == Some(n as nat),
            None => reading(content_view(content)) is None,
        },
{
    match content {
        Some(s) => text::parse_number(text::trim(s).as_str(), u64::MAX),
        None => None,
    }
}

/// The system-wide task capacity, from what the kernel's files on threads,
/// process numbers and the root control group hold: the least of the three,
/// one process number being reserved.
pub fn system_tasks_max(threads: Option<&str>, pids: Option<&str>, root_pids: Option<&str>) -> (r: u64)
    ensures
        ({
            let t = or_unbounded(reading(content_view(threads)));
            let p = or_unbounded(reading(content_view(pids)));
            let q = or_unbounded(reading(content_view(root_pids)));
            let usable = if p == 0 {
                0
            } else {
                p - 1
            };
            &&& r <= t && r <= usable && r <= q
            &&& r == t || r == usable || r == q
        }),
{
    let t: u64 = match read_u64(threads) {
        Some(n) => n,
        None => u64::MAX,
    };
    let p: u64 = match read_u64(pids) {
        Some(n) => n,
        None => u64::MAX,
    };
    let q: u64 = match read_u64(root_pids) {
        Some(n) => n,
        None => u64::MAX,
    };
    let usable: u64 = if p == 0 {
        0
    } else {
        p - 1
    };
    let least: u64 = if t <= usable {
        t
    } else {
        usable
    };
    if least <= q {
        least
    } else {
        q
    }
}

/// A limit value as a number.
pub fn rlimit_value(value: RlimitValue) -> (r: u64)
    ensures
        r == match value {
            RlimitValue::Value(value) => value,
            RlimitValue::Infinity => u64::MAX,
        },
{
    match value {
        RlimitValue::Value(value) => value,
        RlimitValue::Infinity => u64::MAX,
    }
}

/// The units of size, each 1024 times the one before it.
pub open spec fn unit_letters() -> Seq<char> {
    seq!['B', 'K', 'M', 'G', 'T', 'P', 'E']
}

/// Whether two texts differ at most in the case of ASCII letters.
pub open spec fn same_but_for_case(a: Seq<char>, b: Seq<char>) -> bool {
    &&& a.len() == b.len()
    &&& forall|i: int|
        0 <= i < a.len() ==> #[trigger] a[i] == b[i] || (65 <= a[i] as int <= 90 && b[i] as int == a[i] as int + 32) || (97
            <= a[i] as int <= 122 && b[i] as int == a[i] as int - 32)
}

/// Whether a text spells one of the units, by its place among them.
pub open spec fn is_spelling(unit: Seq<char>, j: int) -> bool {
    let c = unit_letters()[j];
    &&& 0 <= j < 7
    &&& {
        ||| same_but_for_case(unit, seq![c])
        ||| j > 0 && same_but_for_case(unit, seq![c, 'B'])
        ||| j > 0 && same_but_for_case(unit, seq![c, 'i', 'B'])
    }
}

proof fn lemma_size_factor(unit: Seq<char>)
    ensures
        ({
            let n = text::upper_case(unit);
            let factor: Option<u64> = if n.len() == 0 || n[0] == 'B' {
                Some(1)
            } else if n[0] == 'K' {
                Some(0x400)
            } else if n[0] == 'M' {
                Some(0x10_0000)
            } else if n[0] == 'G' {
                Some(0x4000_0000)
            } else if n[0] == 'T' {
                Some(0x100_0000_0000)
            } else if n[0] == 'P' {
                Some(0x4_0000_0000_0000)
            } else if n[0] == 'E' {
                Some(0x1000_0000_0000_0000)
            } else {
                None
            };
            let spelled = n.len() <= 1 || (n[0] != 'B' && n.len() == 2 && n[1] == 'B') || (n[0] != 'B' && n.len() == 3 && n[1]
                == 'I' && n[2] == 'B');
            size_factor(unit) == if spelled {
                factor
            } else {
                None
            }
        }),
{
    let n = text::upper_case(unit);
    reveal_strlit("");
    reveal_strlit("B");
    reveal_strlit("K");
    reveal_strlit("KB");
    reveal_strlit("KIB");
    reveal_strlit("M");
    reveal_strlit("MB");
    reveal_strlit("MIB");
    reveal_strlit("G");
    reveal_strlit("GB");
    reveal_strlit("GIB");
    reveal_strlit("T");
    reveal_strlit("TB");
    reveal_strlit("TIB");
    reveal_strlit("P");
    reveal_strlit("PB");
    reveal_strlit("PIB");
    reveal_strlit("E");
    reveal_strlit("EB");
    reveal_strlit("EIB");
    assert(""@ =~= Seq::<char>::empty());
    assert("B"@ =~= seq!['B']);
    assert("K"@ =~= seq!['K']);
    assert("KB"@ =~= seq!['K', 'B']);
    assert("KIB"@ =~= seq!['K', 'I', 'B']);
    assert("M"@ =~= seq!['M']);
    assert("MB"@ =~= seq!['M', 'B']);
    assert("MIB"@ =~= seq!['M', 'I', 'B']);
    assert("G"@ =~= seq!['G']);
    assert("GB"@ =~= seq!['G', 'B']);
    assert("GIB"@ =~= seq!['G', 'I', 'B']);
    assert("T"@ =~= seq!['T']);
    assert("TB"@ =~= seq!['T', 'B']);
    assert("TIB"@ =~= seq!['T', 'I', 'B']);
    assert("P"@ =~= seq!['P']);
    assert("PB"@ =~= seq!['P', 'B']);
    assert("PIB"@ =~= seq!['P', 'I', 'B']);
    assert("E"@ =~= seq!['E']);
    assert("EB"@ =~= seq!['E', 'B']);
    assert("EIB"@ =~= seq!['E', 'I', 'B']);
    if n.len() == 0 {
        assert(n =~= Seq::empty());
    } else if n.len() == 1 {
        assert(n =~= seq![n[0]]);
    } else if n.len() == 2 {
        assert(n =~= seq![n[0], n[1]]);
    } else if n.len() == 3 {
        assert(n =~= seq![n[0], n[1], n[2]]);
    }
}

/// The units of size are the powers of 1024: a byte counts once, and each unit
/// is 1024 times the one before it.
pub proof fn law_each_unit_is_1024_of_the_one_before(k: int)
    requires
        0 <= k < 6,
    ensures
        size_factor(Seq::empty()) == Some(1u64),
        size_factor(seq![unit_letters()[0]]) == Some(1u64),
        size_factor(seq![unit_letters()[k]]) is Some,
        size_factor(seq![unit_letters()[k + 1]]) is Some,
        size_factor(seq![unit_letters()[k + 1]])->0 == 1024 * size_factor(seq![unit_letters()[k]])->0,
{
    let letters = unit_letters();
    lemma_size_factor(Seq::empty());
    lemma_size_factor(seq![letters[0]]);
    lemma_size_factor(seq![letters[k]]);
    lemma_size_factor(seq![letters[k + 1]]);
    assert(text::upper_case(seq![letters[0]])[0] == letters[0]);
    assert(text::upper_case(seq![letters[k]])[0] == letters[k]);
    assert(text::upper_case(seq![letters[k + 1]])[0] == letters[k + 1]);
}

/// A unit above a byte may be spelled with its letter alone, with a `B` behind
/// it or with an `iB`, in any case; nothing else is a unit.
pub proof fn law_how_units_are_spelled(unit: Seq<char>, other: Seq<char>, k: int)
    requires
        1 <= k < 7,
    ensures
        ({
            let c = unit_letters()[k];
            &&& size_factor(seq![c, 'B']) == size_factor(seq![c])
            &&& size_factor(seq![c, 'i', 'B']) == size_factor(seq![c])
        }),
        same_but_for_case(unit, other) ==> size_factor(unit) == size_factor(other),
        size_factor(unit) is Some ==> unit.len() == 0 || exists|j: int| #[trigger] is_spelling(unit, j),
{
    let letters = unit_letters();
    let c = letters[k];
    lemma_size_factor(seq![c]);
    lemma_size_factor(seq![c, 'B']);
    lemma_size_factor(seq![c, 'i', 'B']);
    assert(text::upper_case(seq![c]) =~= seq![c]);
    assert(text::upper_case(seq![c, 'B']) =~= seq![c, 'B']);
    assert(text::upper_case(seq![c, 'i', 'B']) =~= seq![c, 'I', 'B']);
    if same_but_for_case(unit, other) {
        assert(text::upper_case(unit) =~= text::upper_case(other)) by {
            assert forall|i: int| 0 <= i < unit.len() implies text::upper_case(unit)[i] == text::upper_case(other)[i] by {
                assert(unit[i] == unit[i]);
            }
        }
        lemma_size_factor(unit);
        lemma_size_factor(other);
    }
    if size_factor(unit) is Some && unit.len() > 0 {
        lemma_size_factor(unit);
        let n = text::upper_case(unit);
        let j: int = if n[0] == 'B' {
            0
        } else if n[0] == 'K' {
            1
        } else if n[0] == 'M' {
            2
        } else if n[0] == 'G' {
            3
        } else if n[0] == 'T' {
            4
        } else if n[0] == 'P' {
            5
        } else {
            6
        };
        let l = letters[j];
        assert(n[0] == l);
        if unit.len() == 1 {
            assert(same_but_for_case(unit, seq![l]));
        } else if unit.len() == 2 {
            assert(same_but_for_case(unit, seq![l, 'B']));
        } else {
            assert(n[1] == 'I' && n[2] == 'B');
            assert(same_but_for_case(unit, seq![l, 'i', 'B']));
        }
        assert(is_spelling(unit, j));
    }
}

/// A size is read term by term: a number and its unit, set off from the next
/// by white space. A term whose unit is none, or behind which something else
/// stands, spoils the size.
pub proof fn law_sizes_are_read_term_by_term(number: Seq<char>, unit: Seq<char>, rest: Seq<char>)
    requires
        number.len() > 0,
        forall|i: int| 0 <= i < number.len() ==> ('0' <= #[trigger] number[i] <= '9') || number[i] == '.',
        forall|i: int| 0 <= i < unit.len() ==> ('a' <= #[trigger] unit[i] <= 'z') || ('A' <= unit[i] <= 'Z'),
        rest.len() > 0 ==> !('a' <= rest[0] <= 'z') && !('A' <= rest[0] <= 'Z') && (unit.len() == 0 ==> !('0' <= rest[0]
            <= '9') && rest[0] != '.'),
    ensures
        terms_of(Seq::empty()) == Some(Seq::<SizeTermView>::empty()),
        ({
            let read = terms_of(number + unit + rest);
            let sound = size_factor(unit) is Some && (rest.len() == 0 || text::is_white_space(rest[0])) && terms_of(rest) is Some;
            &&& read is Some <==> sound
            &&& sound ==> read->0 == seq![SizeTermView { number, factor: size_factor(unit)->0 }] + terms_of(rest)->0
        }),
{
    let s = number + unit + rest;
    let behind = unit + rest;
    assert(s[0] == number[0]);
    assert(text::trim_start(s) == s);
    assert forall|i: int| 0 <= i < number.len() implies is_number_char(#[trigger] s[i]) by {
        assert(s[i] == number[i]);
    }
    assert(number.len() < s.len() ==> s[number.len() as int] == behind[0]);
    lemma_number_len(s, number.len() as int);
    assert(s.skip(number.len() as int) =~= behind);
    assert(s.take(number.len() as int) =~= number);
    assert forall|i: int| 0 <= i < unit.len() implies is_unit_char(#[trigger] behind[i]) by {
        assert(behind[i] == unit[i]);
    }
    assert(unit.len() < behind.len() ==> behind[unit.len() as int] == rest[0]);
    lemma_unit_len(behind, unit.len() as int);
    assert(behind.skip(unit.len() as int) =~= rest);
    assert(behind.take(unit.len() as int) =~= unit);
}

/// White space before a term changes nothing, and what neither is a term nor
/// white space is no size.
pub proof fn law_white_space_sets_terms_off(s: Seq<char>, space: char)
    requires
        s.len() > 0,
        text::is_white_space(space),
    ensures
        terms_of(seq![space] + s) == terms_of(s),
        !text::is_white_space(s[0]) && !('0' <= s[0] <= '9') && s[0] != '.' ==> terms_of(s) is None,
{
    let all = seq![space] + s;
    assert(all[0] == space);
    assert(all.drop_first() =~= s);
    assert(text::trim_start(all) == text::trim_start(s));
    reveal_with_fuel(terms_of, 2);
}

/// A nice level with a sign counts from twenty, a plus sign down and a minus
/// sign up; without one it is the value itself. What is out of range is no
/// level.
pub proof fn law_nice_levels_count_from_twenty(n: nat)
    requires
        n <= u64::MAX,
    ensures
        nice_value(seq!['+'] + text::decimal(n)) == (if n < 20 { Some((20 - n) as nat) } else { None }),
        nice_value(seq!['-'] + text::decimal(n)) == (if n <= 20 { Some(20 + n) } else { None }),
        nice_value(text::decimal(n)) == (if n <= 40 { Some(n) } else { None }),
{
    text::lemma_decimal_reads_back(n);
    let d = text::decimal(n);
    assert(text::is_digit(d[0]));
    assert((seq!['+'] + d).drop_first() =~= d);
    assert((seq!['-'] + d).drop_first() =~= d);
}

/// A limit of time counts whole seconds or microseconds, seconds rounded up
/// from whole microseconds; a limit of size counts bytes; a count is the number
/// that is written. None reaches the number that stands for no limit.
pub proof fn law_what_one_side_of_a_limit_counts(s: Seq<char>, reading: u128, n: nat, v: u64)
    requires
        s != "infinity"@,
    ensures
        side_value(s, RlimitKind::Size, Some(reading)) == Some(RlimitValue::Value(v)) <==> v == reading && v < u64::MAX,
        side_value(s, RlimitKind::Microseconds, Some(reading)) == Some(RlimitValue::Value(v)) <==> v < u64::MAX && v * 1000
            <= reading < (v + 1) * 1000,
        side_value(s, RlimitKind::Seconds, Some(reading)) == Some(RlimitValue::Value(v)) <==> v < u64::MAX && (v - 1) * 1_000_000
            < reading as int / 1000 <= v * 1_000_000,
        side_value(s, RlimitKind::Size, None) is None,
        side_value(s, RlimitKind::Seconds, None) is None,
        side_value(s, RlimitKind::Microseconds, None) is None,
        text::number(s) == Some(n) ==> (side_value(s, RlimitKind::Count, Some(reading)) == Some(RlimitValue::Value(v)) <==> n == v && v
            < u64::MAX),
        text::number(s) is None ==> side_value(s, RlimitKind::Count, Some(reading)) is None,
        nice_value(s) == Some(n) && n <= 40 ==> side_value(s, RlimitKind::Nice, Some(reading)) == Some(RlimitValue::Value(n as u64)),
        nice_value(s) is None ==> side_value(s, RlimitKind::Nice, Some(reading)) is None,
{
}

/// `infinity` is no limit, except for a nice level.
pub proof fn law_infinity_is_no_limit(kind: RlimitKind, reading: Option<u128>)
    ensures
        side_value("infinity"@, kind, reading) == (if kind is Nice { None } else { Some(RlimitValue::Infinity) }),
{
    reveal_strlit("infinity");
    let s = "infinity"@;
    assert(s[0] == 'i');
    assert(!text::is_digit(s[0]));
}

/// One side stands for both. Two sides make a limit exactly when both denote a
/// value, the soft one is not above the hard one, and there is no third.
pub proof fn law_a_limit_has_one_side_or_two(a: Seq<char>, b: Seq<char>, kind: RlimitKind, soft: Option<u128>, hard: Option<u128>)
    requires
        !a.contains(':'),
    ensures
        limit_of(a, kind, soft, hard) == (match side_value(a, kind, soft) {
            Some(v) => Some(RlimitSpec { soft: v, hard: v }),
            None => None,
        }),
        ({
            let x = side_value(a, kind, soft);
            let y = side_value(b, kind, hard);
            let both = a.push(':') + b;
            let sound = x is Some && y is Some && !b.contains(':') && (y->0 is Infinity || (x->0 is Value && y->0 is Value && x->0->Value_0
                <= y->0->Value_0));
            &&& limit_of(both, kind, soft, hard) is Some <==> sound
            &&& sound ==> limit_of(both, kind, soft, hard) == Some(RlimitSpec { soft: x->0, hard: y->0 })
        }),
{
    assert forall|i: int| 0 <= i < a.len() implies #[trigger] a[i] != ':' by {
        assert(a.contains(a[i]));
    }
    text::lemma_find_is(a, ':', a.len() as int);
    assert(a.take(a.len() as int) =~= a);
    let both = a.push(':') + b;
    let n = a.len() as int;
    assert forall|i: int| 0 <= i < n implies #[trigger] both[i] != ':' by {
        assert(both[i] == a[i]);
    }
    assert(both[n] == ':');
    text::lemma_find_is(both, ':', n);
    assert(both.take(n) =~= a);
    assert(both.skip(n + 1) =~= b);
}

proof fn lemma_fraction(whole: nat, decimals: Seq<char>, multiplier: nat, precision: int)
    requires
        decimals.len() > 0 ==> text::is_digits(decimals),
    ensures
        ({
            let number = if decimals.len() == 0 {
                text::decimal(whole)
            } else {
                text::decimal(whole).push('.') + decimals
            };
            let value = whole * multiplier + text::digits_value(decimals) * pow10(precision - decimals.len());
            fraction_of(number, multiplier, precision) == if decimals.len() <= precision && value <= 10_000 {
                Some(value)
            } else {
                None
            }
        }),
{
    text::lemma_decimal_reads_back(whole);
    let d = text::decimal(whole);
    let n = d.len() as int;
    assert forall|i: int| 0 <= i < n implies #[trigger] d[i] != '.' by {
        assert(text::is_digit(d[i]));
    }
    if decimals.len() == 0 {
        text::lemma_find_is(d, '.', n);
        assert(d.take(n) =~= d);
        assert(decimals =~= Seq::empty());
    } else {
        let number = d.push('.') + decimals;
        assert forall|i: int| 0 <= i < n implies #[trigger] number[i] != '.' by {
            assert(number[i] == d[i]);
        }
        assert(number[n] == '.');
        text::lemma_find_is(number, '.', n);
        assert(number.take(n) =~= d);
        assert(number.skip(n + 1) =~= decimals);
    }
}

/// A share is written in hundredths with at most two decimals, in thousandths
/// with at most one, or in ten-thousandths, and is not above the whole.
pub proof fn law_shares_are_written_with_their_sign(whole: nat, first: nat, second: nat)
    requires
        first < 10,
        second < 10,
    ensures
        ({
            let d = text::decimal(whole);
            let f = (48 + first) as char;
            let g = (48 + second) as char;
            let one = d.push('.').push(f);
            let two = one.push(g);
            let at = |n: nat| if n <= 10_000 { Some(n) } else { None };
            &&& permyriad(d.push('%')) == at(whole * 100)
            &&& permyriad(one.push('%')) == at(whole * 100 + first * 10)
            &&& permyriad(two.push('%')) == at(whole * 100 + first * 10 + second)
            &&& permyriad(two.push(g).push('%')) is None
            &&& permyriad(d.push('\u{2030}')) == at(whole * 10)
            &&& permyriad(one.push('\u{2030}')) == at(whole * 10 + first)
            &&& permyriad(two.push('\u{2030}')) is None
            &&& permyriad(d.push('\u{2031}')) == at(whole)
            &&& permyriad(one.push('\u{2031}')) is None
            &&& permyriad(d) is None
        }),
{
    let d = text::decimal(whole);
    let f = (48 + first) as char;
    let g = (48 + second) as char;
    let one = d.push('.').push(f);
    let two = one.push(g);
    let three = two.push(g);
    text::lemma_decimal_reads_back(whole);
    assert(text::is_digit(d.last()));
    assert(text::is_digit(f) && text::is_digit(g));
    assert(f as int == 48 + first && g as int == 48 + second);
    let none = Seq::<char>::empty();
    let x = seq![f];
    let y = seq![f, g];
    let z = seq![f, g, g];
    assert(text::is_digits(x) && text::is_digits(y) && text::is_digits(z));
    assert(x.drop_last() =~= none);
    assert(y.drop_last() =~= x);
    assert(text::digits_value(none) == 0);
    assert(text::digits_value(x) == first);
    assert(text::digits_value(y) == first * 10 + second);
    assert(d.push('.') + x =~= one);
    assert(d.push('.') + y =~= two);
    assert(d.push('.') + z =~= three);
    assert(d.push('%').drop_last() =~= d);
    assert(one.push('%').drop_last() =~= one);
    assert(two.push('%').drop_last() =~= two);
    assert(three.push('%').drop_last() =~= three);
    assert(d.push('\u{2030}').drop_last() =~= d);
    assert(one.push('\u{2030}').drop_last() =~= one);
    assert(two.push('\u{2030}').drop_last() =~= two);
    assert(d.push('\u{2031}').drop_last() =~= d);
    assert(one.push('\u{2031}').drop_last() =~= one);
    lemma_fraction(whole, none, 100, 2);
    lemma_fraction(whole, x, 100, 2);
    lemma_fraction(whole, y, 100, 2);
    lemma_fraction(whole, z, 100, 2);
    lemma_fraction(whole, none, 10, 1);
    lemma_fraction(whole, x, 10, 1);
    lemma_fraction(whole, y, 10, 1);
    lemma_fraction(whole, none, 1, 0);
    lemma_fraction(whole, x, 1, 0);
}

/// A task limit is none where nothing or `infinity` is written; a share in
/// ten-thousandths where a share is; and else a positive number. White space
/// around it does not count.
pub proof fn law_what_task_limits_say(s: Seq<char>)
    ensures
        tasks_max_of(s) == tasks_max_of(text::trimmed(s)),
        text::trimmed(s).len() == 0 ==> tasks_max_of(s) == Some(TasksMaxSpec { value: u64::MAX, scale: 0 }),
        tasks_max_of("infinity"@) == Some(TasksMaxSpec { value: u64::MAX, scale: 0 }),
        text::trimmed(s) == s && permyriad(s) is Some ==> tasks_max_of(s) == Some(
            TasksMaxSpec { value: permyriad(s)->0 as u64, scale: 10_000 },
        ),
        text::trimmed(s) == s && text::number(s) is Some ==> (tasks_max_of(s) is Some <==> 0 < text::number(s)->0 < u64::MAX),
        text::trimmed(s) == s && text::number(s) is Some && tasks_max_of(s) is Some ==> tasks_max_of(s)->0.value == text::number(s)->0
            && tasks_max_of(s)->0.scale == 0,
        text::trimmed(s) == s && s.len() > 0 && s != "infinity"@ && permyriad(s) is None && text::number(s) is None ==> tasks_max_of(
            s,
        ) is None,
{
    text::law_what_is_trimmed_stays(s);
    lemma_infinity_is_plain();
    if text::number(s) is Some {
        lemma_number_is_no_share(s);
    }
}

proof fn lemma_infinity_is_plain()
    ensures
        text::trimmed("infinity"@) == "infinity"@,
        "infinity"@.last() == 'y',
{
    reveal_strlit("infinity");
    text::law_what_is_trimmed_stays("infinity"@);
}

proof fn lemma_number_is_no_share(s: Seq<char>)
    requires
        text::number(s) is Some,
    ensures
        s.len() > 0,
        '0' <= s.last() <= '9',
        permyriad(s) is None,
{
    text::law_only_digits_denote_numbers(s, 0);
    assert('0' <= s[s.len() - 1] <= '9');
}

/// A limit that is no share allows what it says. A share allows the largest
/// number of tasks that is not above that part of the capacity, as far as
/// numbers reach.
pub proof fn law_shares_are_of_the_capacity(limit: TasksMaxSpec, capacity: u64)
    ensures
        limit.scale == 0 ==> tasks_allowed(limit, capacity) == limit.value,
        limit.scale > 0 ==> {
            let n = tasks_allowed(limit, capacity) as int;
            &&& n * limit.scale <= capacity * limit.value
            &&& n < u64::MAX ==> capacity * limit.value < (n + 1) * limit.scale
        },
{
    if limit.scale > 0 {
        let product = capacity * limit.value;
        let share = product / limit.scale as int;
        assert(product >= 0) by (nonlinear_arith)
            requires
                product == capacity * limit.value,
        ;
        assert(share * limit.scale <= product < (share + 1) * limit.scale && share >= 0) by (nonlinear_arith)
            requires
                limit.scale > 0,
                product >= 0,
                share == product / limit.scale as int,
        ;
        let n = tasks_allowed(limit, capacity) as int;
        if share > u64::MAX {
            assert(n * limit.scale <= share * limit.scale) by (nonlinear_arith)
                requires
                    n <= share,
                    limit.scale > 0,
            ;
        }
    }
}

/// The resources in the order of the configuration. The kernel numbers the
/// first five and the last six by their place in it, and the others as the
/// machine does.
pub proof fn law_resources_are_numbered_in_order(numbers: LimitNumbers, i: int)
    ensures
        0 <= i < 5 || 10 <= i < 16 ==> ALL[i].number(numbers) == i,
        RlimitResource::Rss.number(numbers) == numbers.rss,
        RlimitResource::Nofile.number(numbers) == numbers.nofile,
        RlimitResource::As.number(numbers) == numbers.address_space,
        RlimitResource::Nproc.number(numbers) == numbers.nproc,
        RlimitResource::Memlock.number(numbers) == numbers.memlock,
        ALL@ == seq![
            RlimitResource::Cpu,
            RlimitResource::Fsize,
            RlimitResource::Data,
            RlimitResource::Stack,
            RlimitResource::Core,
            RlimitResource::Rss,
            RlimitResource::Nofile,
            RlimitResource::As,
            RlimitResource::Nproc,
            RlimitResource::Memlock,
            RlimitResource::Locks,
            RlimitResource::Sigpending,
            RlimitResource::Msgqueue,
            RlimitResource::Nice,
            RlimitResource::Rtprio,
            RlimitResource::Rttime,
        ],
{
    assert(ALL@ =~= seq![
        RlimitResource::Cpu,
        RlimitResource::Fsize,
        RlimitResource::Data,
        RlimitResource::Stack,
        RlimitResource::Core,
        RlimitResource::Rss,
        RlimitResource::Nofile,
        RlimitResource::As,
        RlimitResource::Nproc,
        RlimitResource::Memlock,
        RlimitResource::Locks,
        RlimitResource::Sigpending,
        RlimitResource::Msgqueue,
        RlimitResource::Nice,
        RlimitResource::Rtprio,
        RlimitResource::Rttime,
    ]);
}

/// The keys of the resources, in the order of the configuration.
pub proof fn law_resources_have_their_keys()
    ensures
        Seq::new(16, |i: int| ALL[i].name()) == seq![
            "CPU"@,
            "FSIZE"@,
            "DATA"@,
            "STACK"@,
            "CORE"@,
            "RSS"@,
            "NOFILE"@,
            "AS"@,
            "NPROC"@,
            "MEMLOCK"@,
            "LOCKS"@,
            "SIGPENDING"@,
            "MSGQUEUE"@,
            "NICE"@,
            "RTPRIO"@,
            "RTTIME"@,
        ],
{
    let numbers = LimitNumbers { rss: 0, nproc: 0, nofile: 0, memlock: 0, address_space: 0 };
    law_resources_are_numbered_in_order(numbers, 0);
}

} // verus!
