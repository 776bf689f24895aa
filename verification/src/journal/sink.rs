//! The destination of accepted entries.
//!
//! An entry is written to the durable journal before it becomes visible in the
//! ring, so that a storage failure is reported instead of silently claiming
//! that an entry arrived.

use vstd::prelude::*;

use crate::journal::entry::{pushed, EntryRing, JournalEntry, RingView};
use crate::text;

verus! {

/// Destination shared by the datagram and stdout servers.
#[derive(Debug)]
pub struct JournalSink {
    ring: EntryRing,
    persistent: bool,
    open: bool,
    failure: Option<String>,
}

/// What a sink holds.
#[verifier::ext_equal]
pub struct SinkView {
    pub ring: RingView,
    /// Whether entries are also written to a file.
    pub persistent: bool,
    /// Whether that file is still open.
    pub open: bool,
    /// The first failure.
    pub failure: Option<Seq<char>>,
}

/// What has to happen before an entry is recorded.
#[derive(Debug, Clone, Copy, PartialEq, Eq, Structural)]
pub enum SinkStep {
    /// Nothing more is accepted.
    Refuse,
    /// Append the entry to the file first.
    Append,
    /// Nothing.
    Retain,
}

/// What recording an entry does when appending it came to `appended`. After a
/// failure nothing is accepted.
pub open spec fn recorded(sink: SinkView, entry: JournalEntry, appended: Result<(), Seq<char>>) -> SinkView {
    if sink.failure is Some {
        sink
    } else if sink.persistent && !sink.open {
        SinkView { failure: Some("journal writer is already closed"@), ..sink }
    } else {
        match appended {
            Err(error) if sink.persistent => SinkView { failure: Some(error), ..sink },
            _ => SinkView { ring: pushed(sink.ring, entry), ..sink },
        }
    }
}

/// The view of an append's result.
pub open spec fn result_view(appended: Result<(), String>) -> Result<(), Seq<char>> {
    match appended {
        Ok(()) => Ok(()),
        Err(error) => Err(error@),
    }
}

impl View for JournalSink {
    type V = SinkView;

    closed spec fn view(&self) -> SinkView {
        SinkView {
            ring: self.ring@,
            persistent: self.persistent,
            open: self.open,
            failure: text::opt_view(self.failure),
        }
    }
}

impl JournalSink {
    /// The ring is well formed.
    pub closed spec fn wf(&self) -> bool {
        self.ring.wf()
    }

    /// The ring of a sink never holds more than its capacity.
    pub proof fn lemma_bounds(&self)
        requires
            self.wf(),
        ensures
            self@.ring.bounded(),
    {
        self.ring.lemma_bounds();
    }

    /// A destination that does not persist.
    pub fn in_memory(ring: EntryRing) -> (r: Self)
        requires
            ring.wf(),
        ensures
            r.wf(),
            r@ == (SinkView { ring: ring@, persistent: false, open: false, failure: None }),
    {
        JournalSink { ring, persistent: false, open: false, failure: None }
    }

    /// A destination that persists entries before retaining them.
    pub fn with_writer(ring: EntryRing) -> (r: Self)
        requires
            ring.wf(),
        ensures
            r.wf(),
            r@ == (SinkView { ring: ring@, persistent: true, open: true, failure: None }),
    {
        JournalSink { ring, persistent: true, open: true, failure: None }
    }

    /// What has to happen before an entry is recorded.
    pub fn step(&self) -> (r: SinkStep)
        ensures
            r == if self@.failure is Some || (self@.persistent && !self@.open) {
                SinkStep::Refuse
            } else if self@.persistent {
                SinkStep::Append
            } else {
                SinkStep::Retain
            },
    {
        if self.failure.is_some() || (self.persistent && !self.open) {
            SinkStep::Refuse
        } else if self.persistent {
            SinkStep::Append
        } else {
            SinkStep::Retain
        }
    }

    /// Persist and retain one entry. `appended` is what appending it to the
    /// file came to, where that was to be done.
    pub fn record(&mut self, entry: JournalEntry, appended: Result<(), String>)
        requires
            old(self).wf(),
            old(self)@.ring.total < usize::MAX,
            entry.wf(),
        ensures
            final(self).wf(),
            final(self)@ == recorded(old(self)@, entry, result_view(appended)),
    {
        if self.failure.is_some() {
            return;
        }
        if self.persistent && !self.open {
            self.failure = Some("journal writer is already closed".to_owned());
            return;
        }
        if self.persistent {
            if let Err(error) = appended {
                self.failure = Some(error);
                return;
            }
        }
        self.ring.push(entry);
    }

    /// The entries retained.
    pub fn ring(&self) -> (r: &EntryRing)
        requires
            self.wf(),
        ensures
            r.wf(),
            r@ == self@.ring,
    {
        &self.ring
    }

    /// The first persistence failure.
    pub fn failure(&self) -> (r: Option<&str>)
        ensures
            match r {
                Some(failure) => self@.failure == Some(failure@),
                None => self@.failure is None,
            },
    {
        match &self.failure {
            Some(failure) => Some(failure.as_str()),
            None => None,
        }
    }

    /// Stop persisting. Whether there is a file to flush and close.
    pub fn shutdown(&mut self) -> (r: bool)
        requires
            old(self).wf(),
        ensures
            final(self).wf(),
            r == (old(self)@.persistent && old(self)@.open),
            final(self)@ == (SinkView { open: false, ..old(self)@ }),
    {
        let close = self.persistent && self.open;
        self.open = false;
        close
    }
}

/// Once an entry could not be persisted, the ring stays as it is and the first
/// failure stays the one reported, whatever is recorded afterwards.
pub proof fn law_first_failure_is_final(sink: SinkView, entry: JournalEntry, appended: Result<(), Seq<char>>)
    requires
        sink.failure is Some,
    ensures
        recorded(sink, entry, appended) == sink,
{
}

/// A persistent sink shows an entry only after it was appended.
pub proof fn law_visible_only_when_durable(sink: SinkView, entry: JournalEntry, appended: Result<(), Seq<char>>)
    requires
        sink.persistent,
        recorded(sink, entry, appended).ring != sink.ring,
    ensures
        sink.open,
        appended is Ok,
{
}

/// What recording an entry comes to. After a failure nothing is recorded. A
/// journal that is kept on disk fails for good when its writer is closed or
/// when an entry could not be written, and that entry is not seen; every other
/// entry is retained.
pub proof fn law_what_recording_comes_to(sink: SinkView, entry: JournalEntry, appended: Result<(), Seq<char>>)
    ensures
        ({
            let after = recorded(sink, entry, appended);
            let closed = sink.persistent && !sink.open;
            let lost = sink.persistent && sink.open && appended is Err;
            &&& sink.failure is Some ==> after == sink
            &&& sink.failure is None && closed ==> after == (SinkView { failure: after.failure, ..sink }) && after.failure is Some
            &&& sink.failure is None && lost ==> after == (SinkView { failure: Some(appended->Err_0), ..sink })
            &&& sink.failure is None && !closed && !lost ==> after == (SinkView { ring: pushed(sink.ring, entry), ..sink })
        }),
{
}

/// What came of writing is kept as it was.
pub proof fn law_the_result_of_writing_is_kept(appended: Result<(), String>)
    ensures
        result_view(appended) is Ok <==> appended is Ok,
        appended is Err ==> result_view(appended) == Err::<(), Seq<char>>(appended->Err_0@),
{
}

} // verus!
