//! Event source identifiers and the tokens that carry them through the kernel.

use vstd::prelude::*;

verus! {

/// Unique identifier for a registered event source. Never zero.
#[derive(Debug, Clone, Copy, PartialEq, Eq, Hash, Structural)]
pub struct SourceId(u32);

impl View for SourceId {
    type V = u32;

    closed spec fn view(&self) -> u32 {
        self.0
    }
}

impl SourceId {
    /// The identifier of a number, unless it is zero.
    pub fn new(n: u32) -> (r: Option<Self>)
        ensures
            match r {
                Some(id) => n != 0 && id@ == n,
                None => n == 0,
            },
    {
        if n == 0 {
            None
        } else {
            Some(SourceId(n))
        }
    }

    /// The number of an identifier.
    pub fn get(self) -> (r: u32)
        ensures
            r == self@,
    {
        self.0
    }
}

/// The kind of event source, encoded in the upper 8 bits of a token.
#[derive(Debug, Clone, Copy, PartialEq, Eq, Structural)]
pub enum SourceKind {
    Io,
    Signal,
    Timer,
    Inotify,
    Child,
    Defer,
}

impl SourceKind {
    /// The byte that stands for a kind.
    pub open spec fn bits(self) -> u8 {
        match self {
            SourceKind::Io => 1,
            SourceKind::Signal => 2,
            SourceKind::Timer => 3,
            SourceKind::Inotify => 4,
            SourceKind::Child => 5,
            SourceKind::Defer => 6,
        }
    }

    /// The byte that stands for a kind.
    pub fn to_token_bits(self) -> (r: u8)
        ensures
            r == self.bits(),
    {
        match self {
            SourceKind::Io => 1,
            SourceKind::Signal => 2,
            SourceKind::Timer => 3,
            SourceKind::Inotify => 4,
            SourceKind::Child => 5,
            SourceKind::Defer => 6,
        }
    }

    /// The kind that a byte stands for.
    pub fn from_token_bits(bits: u8) -> (r: Option<Self>)
        ensures
            match r {
                Some(kind) => kind.bits() == bits,
                None => forall|kind: SourceKind| #[trigger] kind.bits() != bits,
            },
    {
        if bits == 1 {
            Some(SourceKind::Io)
        } else if bits == 2 {
            Some(SourceKind::Signal)
        } else if bits == 3 {
            Some(SourceKind::Timer)
        } else if bits == 4 {
            Some(SourceKind::Inotify)
        } else if bits == 5 {
            Some(SourceKind::Child)
        } else if bits == 6 {
            Some(SourceKind::Defer)
        } else {
            None
        }
    }
}

/// A 64-bit token: the kind in the upper 8 bits, the identifier in the lower
/// 32.
#[derive(Debug, Clone, Copy, PartialEq, Eq, Structural)]
pub struct SourceToken(pub u64);

impl SourceToken {
    /// The kind byte of a token.
    pub open spec fn kind_bits(self) -> int {
        self.0 as int / 0x100_0000_0000_0000
    }

    /// The identifier of a token.
    pub open spec fn id_bits(self) -> int {
        self.0 as int % 0x1_0000_0000
    }

    /// The token of a source.
    pub fn encode(kind: SourceKind, id: SourceId) -> (r: Self)
        ensures
            r.0 == kind.bits() * 0x100_0000_0000_0000 + id@,
            r.kind_bits() == kind.bits(),
            r.id_bits() == id@,
    {
        let k: u64 = kind.to_token_bits() as u64;
        let i: u64 = id.get() as u64;
        let token: u64 = (k << 56) | i;
        assert(token == k * 0x100_0000_0000_0000 + i) by (bit_vector)
            requires
                k <= 6,
                i <= 0xffff_ffff,
                token == (k << 56) | i,
        ;
        SourceToken(token)
    }

    /// The kind of source that a token names, where it names one.
    pub fn kind(self) -> (r: Option<SourceKind>)
        ensures
            match r {
                Some(kind) => kind.bits() == self.kind_bits(),
                None => forall|kind: SourceKind| #[trigger] kind.bits() != self.kind_bits(),
            },
    {
        let token: u64 = self.0;
        let upper: u64 = token >> 56;
        assert(upper == token / 0x100_0000_0000_0000 && upper <= 255) by (bit_vector)
            requires
                upper == token >> 56,
        ;
        SourceKind::from_token_bits(upper as u8)
    }

    /// The number of the source that a token names.
    pub fn id(self) -> (r: u32)
        ensures
            r == self.id_bits(),
    {
        let token: u64 = self.0;
        let lower: u64 = token & 0xffff_ffff;
        assert(lower == token % 0x1_0000_0000 && lower <= 0xffff_ffff) by (bit_vector)
            requires
                lower == token & 0xffff_ffff,
        ;
        lower as u32
    }
}

/// A token gives back the kind and the identifier that it was made of, and
/// different sources get different tokens.
pub proof fn law_token_round_trip(a: SourceToken, kind: SourceKind, id: u32, b: SourceToken, other: SourceKind, other_id: u32)
    requires
        a.0 == kind.bits() * 0x100_0000_0000_0000 + id,
        b.0 == other.bits() * 0x100_0000_0000_0000 + other_id,
    ensures
        a.kind_bits() == kind.bits(),
        a.id_bits() == id,
        a == b <==> kind == other && id == other_id,
{
}

/// Allocator of source identifiers: a counter.
#[derive(Debug)]
pub struct SourceIdAlloc(u32);

impl View for SourceIdAlloc {
    type V = u32;

    /// The last number handed out, zero before the first.
    closed spec fn view(&self) -> u32 {
        self.0
    }
}

impl SourceIdAlloc {
    /// An allocator whose first identifier is one.
    pub fn new() -> (r: Self)
        ensures
            r@ == 0,
    {
        SourceIdAlloc(0)
    }

    /// Whether there is another identifier.
    pub fn has_next(&self) -> (r: bool)
        ensures
            r == (self@ < u32::MAX),
    {
        self.0 < u32::MAX
    }

    /// The next identifier, which was never handed out before.
    pub fn next(&mut self) -> (r: SourceId)
        requires
            old(self)@ < u32::MAX,
        ensures
            r@ == old(self)@ + 1,
            final(self)@ == old(self)@ + 1,
    {
        self.0 = self.0 + 1;
        SourceId(self.0)
    }
}

/// Every kind of source has its number, and no two have the same.
pub proof fn law_every_kind_has_its_number(a: SourceKind, b: SourceKind)
    ensures
        a.bits() == b.bits() ==> a == b,
        a is Io ==> a.bits() == 1,
        a is Signal ==> a.bits() == 2,
        a is Timer ==> a.bits() == 3,
        a is Inotify ==> a.bits() == 4,
        a is Child ==> a.bits() == 5,
        a is Defer ==> a.bits() == 6,
{
}

/// The parts of a token: the kind in the highest of eight bytes, the number in
/// the lowest four.
pub proof fn law_the_parts_of_a_token(token: SourceToken, kind: u8, number: u32)
    ensures
        0 <= token.kind_bits() < 256,
        0 <= token.id_bits() <= u32::MAX,
        token.0 == kind as int * 0x100_0000_0000_0000 + number ==> token.kind_bits() == kind && token.id_bits() == number,
{
}

} // verus!
