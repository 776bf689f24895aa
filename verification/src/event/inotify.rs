//! Inotify watches and the events that the kernel delivers on them.

use std::collections::HashMap;

use vstd::bytes::spec_u32_from_le_bytes;
use vstd::prelude::*;

use crate::sys;

verus! {

broadcast use vstd::std_specs::hash::group_hash_axioms;

/// A single inotify watch.
#[derive(Debug)]
pub struct Watch {
    /// The watch descriptor.
    pub wd: i32,
    /// The path that was registered.
    pub path: String,
    /// The events that were asked for.
    pub mask: u32,
}

/// The active watches by descriptor.
#[derive(Debug)]
pub struct Watches {
    watches: HashMap<i32, Watch>,
}

impl View for Watches {
    type V = Map<i32, Watch>;

    closed spec fn view(&self) -> Map<i32, Watch> {
        self.watches@
    }
}

impl Watches {
    /// No watches.
    pub fn new() -> (r: Self)
        ensures
            r@ == Map::<i32, Watch>::empty(),
    {
        Watches { watches: HashMap::new() }
    }

    /// Record a watch. The kernel gives the same descriptor again for a path
    /// that is already watched; the new registration then replaces the old.
    pub fn add_watch(&mut self, wd: i32, path: &str, mask: u32)
        ensures
            final(self)@.dom() == old(self)@.dom().insert(wd),
            final(self)@[wd].wd == wd,
            final(self)@[wd].path@ == path@,
            final(self)@[wd].mask == mask,
            forall|other: i32| other != wd && old(self)@.dom().contains(other) ==> final(self)@[other]
                == #[trigger] old(self)@[other],
    {
        self.watches.insert(wd, Watch { wd, path: path.to_owned(), mask });
    }

    /// Forget a watch.
    pub fn remove_watch(&mut self, wd: i32)
        ensures
            final(self)@ == old(self)@.remove(wd),
    {
        self.watches.remove(&wd);
        assert(self@ =~= old(self)@.remove(wd));
    }

    /// The path of a watch descriptor.
    pub fn path_for(&self, wd: i32) -> (r: Option<&str>)
        ensures
            match r {
                Some(path) => self@.dom().contains(wd) && path@ == self@[wd].path@,
                None => !self@.dom().contains(wd),
            },
    {
        match self.watches.get(&wd) {
            Some(watch) => Some(watch.path.as_str()),
            None => None,
        }
    }
}

/// Size of the fixed part of an event.
pub const EVENT_SIZE: usize = 16;

/// An event: which watch, and what happened.
#[derive(Debug, Clone, Copy, PartialEq, Eq, Structural)]
pub struct InotifyEvent {
    pub wd: i32,
    pub mask: u32,
}

/// The order in which a machine stores the bytes of a number.
#[derive(Debug, Clone, Copy, PartialEq, Eq, Structural)]
pub enum ByteOrder {
    /// Least significant byte first.
    Little,
    /// Least significant byte last.
    Big,
}

/// The 32-bit word at a position.
pub open spec fn word(buf: Seq<u8>, at: int, order: ByteOrder) -> u32 {
    match order {
        ByteOrder::Little => spec_u32_from_le_bytes(buf.subrange(at, at + 4)),
        ByteOrder::Big => spec_u32_from_le_bytes(buf.subrange(at, at + 4).reverse()),
    }
}

/// The events in what a read returned: each is a watch descriptor, a mask, a
/// cookie, and the length of the name that follows it. A rest too short for an
/// event is left alone.
pub open spec fn events_in(buf: Seq<u8>, order: ByteOrder) -> Seq<InotifyEvent>
    decreases buf.len(),
{
    if buf.len() < 16 {
        Seq::empty()
    } else {
        let size = 16 + word(buf, 12, order);
        seq![InotifyEvent { wd: word(buf, 0, order) as i32, mask: word(buf, 4, order) }] + events_in(
            if size <= buf.len() {
                buf.skip(size)
            } else {
                Seq::empty()
            },
            order,
        )
    }
}

fn read_word(buf: &[u8], at: usize, order: ByteOrder) -> (r: u32)
    requires
        at + 4 <= buf@.len(),
    ensures
        r == word(buf@, at as int, order),
{
    assert(buf.len() <= usize::MAX);
    match order {
        ByteOrder::Little => vstd::bytes::u32_from_le_bytes(vstd::slice::slice_subrange(buf, at, at + 4)),
        ByteOrder::Big => {
            let swapped: Vec<u8> = vec![buf[at + 3], buf[at + 2], buf[at + 1], buf[at]];
            assert(swapped@ =~= buf@.subrange(at as int, at + 4).reverse());
            vstd::bytes::u32_from_le_bytes(swapped.as_slice())
        },
    }
}

/// Take the events out of what a read returned, in the byte order of this
/// machine.
pub fn parse_events(buf: &[u8]) -> (r: Vec<InotifyEvent>)
    ensures
        exists|order: ByteOrder| r@ == #[trigger] events_in(buf@, order),
{
    let order = if sys::native_u32([1, 0, 0, 0]) == 1 {
        ByteOrder::Little
    } else {
        ByteOrder::Big
    };
    parse_events_in(buf, order)
}

/// Take the events out of what a read returned on a machine with the given
/// byte order.
pub fn parse_events_in(buf: &[u8], order: ByteOrder) -> (r: Vec<InotifyEvent>)
    ensures
        r@ == events_in(buf@, order),
{
    let mut out: Vec<InotifyEvent> = Vec::new();
    let mut left: &[u8] = buf;
    while left.len() >= EVENT_SIZE
        invariant
            events_in(buf@, order) == out@ + events_in(left@, order),
        decreases left@.len(),
    {
        let wd: u32 = read_word(left, 0, order);
        let mask: u32 = read_word(left, 4, order);
        let name: u32 = read_word(left, 12, order);
        let event = InotifyEvent { wd: wd as i32, mask };
        let ghost before = out@;
        let ghost whole = left@;
        out.push(event);
        let length: usize = left.len();
        let rest: usize = length - EVENT_SIZE;
        if name as u64 <= rest as u64 {
            left = vstd::slice::slice_subrange(left, EVENT_SIZE + name as usize, length);
            assert(left@ =~= whole.skip(16 + name as int));
        } else {
            left = vstd::slice::slice_subrange(left, length, length);
            assert(left@ =~= Seq::empty());
        }
        assert(before + (seq![event] + events_in(left@, order)) =~= out@ + events_in(left@, order));
    }
    assert(out@ + Seq::empty() =~= out@);
    out
}

/// Events stand one behind the other: the watch, the mask, a cookie and the
/// length of the name, in four bytes each, and the name. A piece that is
/// shorter than that holds no event; a name that is cut off ends the reading.
pub proof fn law_events_stand_one_behind_the_other(buf: Seq<u8>, rest: Seq<u8>)
    ensures
        buf.len() < 16 ==> events_in(buf, ByteOrder::Little).len() == 0 && events_in(buf, ByteOrder::Big).len() == 0,
        buf.len() >= 16 ==> {
            let length = spec_u32_from_le_bytes(buf.subrange(12, 16)) as int;
            let first = events_in(buf, ByteOrder::Little)[0];
            &&& events_in(buf, ByteOrder::Little).len() > 0
            &&& first.wd == spec_u32_from_le_bytes(buf.subrange(0, 4)) as i32
            &&& first.mask == spec_u32_from_le_bytes(buf.subrange(4, 8))
            &&& buf.len() == 16 + length ==> events_in(buf + rest, ByteOrder::Little) == seq![first] + events_in(rest, ByteOrder::Little)
            &&& buf.len() < 16 + length ==> events_in(buf, ByteOrder::Little) == seq![first]
        },
        buf.len() >= 16 ==> {
            let length = spec_u32_from_le_bytes(buf.subrange(12, 16).reverse()) as int;
            let first = events_in(buf, ByteOrder::Big)[0];
            &&& events_in(buf, ByteOrder::Big).len() > 0
            &&& first.wd == spec_u32_from_le_bytes(buf.subrange(0, 4).reverse()) as i32
            &&& first.mask == spec_u32_from_le_bytes(buf.subrange(4, 8).reverse())
            &&& buf.len() == 16 + length ==> events_in(buf + rest, ByteOrder::Big) == seq![first] + events_in(rest, ByteOrder::Big)
            &&& buf.len() < 16 + length ==> events_in(buf, ByteOrder::Big) == seq![first]
        },
{
    lemma_events_split(buf, rest, ByteOrder::Little);
    lemma_events_split(buf, rest, ByteOrder::Big);
}

proof fn lemma_events_split(buf: Seq<u8>, rest: Seq<u8>, order: ByteOrder)
    ensures
        buf.len() >= 16 ==> {
            let first = InotifyEvent { wd: word(buf, 0, order) as i32, mask: word(buf, 4, order) };
            &&& events_in(buf, order).len() > 0
            &&& events_in(buf, order)[0] == first
            &&& buf.len() == 16 + word(buf, 12, order) ==> events_in(buf + rest, order) == seq![first] + events_in(rest, order)
            &&& buf.len() < 16 + word(buf, 12, order) ==> events_in(buf, order) == seq![first]
        },
{
    if buf.len() >= 16 {
        let all = buf + rest;
        assert(all.subrange(0, 4) =~= buf.subrange(0, 4));
        assert(all.subrange(4, 8) =~= buf.subrange(4, 8));
        assert(all.subrange(12, 16) =~= buf.subrange(12, 16));
        assert(all.skip(buf.len() as int) =~= rest);
        let first = InotifyEvent { wd: word(buf, 0, order) as i32, mask: word(buf, 4, order) };
        assert(events_in(Seq::<u8>::empty(), order) =~= Seq::empty());
        assert(seq![first] + Seq::<InotifyEvent>::empty() =~= seq![first]);
    }
}

} // verus!
