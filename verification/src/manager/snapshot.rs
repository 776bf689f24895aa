//! What clients see of the units, and what changed in it.

use vstd::prelude::*;

use crate::ipc::UnitInfo;
use crate::manager::records::{shows, unit_record_to_info};
use crate::manager::Manager;
use crate::text;

verus! {

/// The names in a snapshot.
pub open spec fn info_names(snapshot: Seq<UnitInfo>) -> Seq<Seq<char>> {
    snapshot.map_values(|info: UnitInfo| info.name@)
}

/// What changed between two snapshots.
#[derive(Debug)]
pub struct SnapshotChange {
    /// Names that are new, each once.
    pub added: Vec<String>,
    /// Names that are gone, each once.
    pub removed: Vec<String>,
}

/// The names of `new` that are not in `old_names`, each once.
fn difference(new: &Vec<String>, old_names: &Vec<String>) -> (r: Vec<String>)
    ensures
        text::views(r@).no_duplicates(),
        forall|name: Seq<char>|
            #[trigger] text::views(r@).contains(name) <==> text::views(new@).contains(name) && !text::views(
                old_names@,
            ).contains(name),
{
    let ghost all = text::views(new@);
    let ghost gone = text::views(old_names@);
    let mut out: Vec<String> = Vec::new();
    let mut i: usize = 0;
    while i < new.len()
        invariant
            i <= new@.len(),
            all == text::views(new@),
            gone == text::views(old_names@),
            text::views(out@).no_duplicates(),
            forall|name: Seq<char>|
                #[trigger] text::views(out@).contains(name) <==> !gone.contains(name) && exists|k: int|
                    0 <= k < i && #[trigger] all[k] == name,
        decreases new@.len() - i,
    {
        let ghost prior = text::views(out@);
        let ghost name = all[i as int];
        assert(name == new@[i as int]@);
        if !text::contains_name(old_names, new[i].as_str()) && !text::contains_name(&out, new[i].as_str()) {
            out.push(new[i].clone());
            let ghost now = text::views(out@);
            proof {
                assert(now =~= prior.push(name));
                assert forall|n: Seq<char>| #[trigger] now.contains(n) <==> prior.contains(n) || n == name by {
                    if prior.contains(n) {
                        let k = choose|k: int| 0 <= k < prior.len() && prior[k] == n;
                        assert(now[k] == n);
                    }
                    if now.contains(n) {
                        let k = choose|k: int| 0 <= k < now.len() && now[k] == n;
                        if k < prior.len() {
                            assert(prior[k] == n);
                        }
                    }
                    assert(now[prior.len() as int] == name);
                }
                assert forall|a: int, b: int| 0 <= a < now.len() && 0 <= b < now.len() && a != b implies now[a] != now[b] by {
                    if a == prior.len() {
                        assert(prior[b] == now[b]);
                        assert(prior.contains(prior[b]));
                    } else if b == prior.len() {
                        assert(prior[a] == now[a]);
                        assert(prior.contains(prior[a]));
                    } else {
                        assert(prior[a] == now[a] && prior[b] == now[b]);
                    }
                }
            }
        }
        proof {
            let now = text::views(out@);
            assert forall|n: Seq<char>| #[trigger] now.contains(n) <==> !gone.contains(n) && exists|k: int|
                0 <= k < i + 1 && #[trigger] all[k] == n by {
                assert(prior.contains(n) || true);
                if n == name {
                    assert(all[i as int] == n);
                }
            }
        }
        i += 1;
    }
    proof {
        let now = text::views(out@);
        assert forall|n: Seq<char>| #[trigger] now.contains(n) <==> all.contains(n) && !gone.contains(n) by {
            if all.contains(n) {
                let k = choose|k: int| 0 <= k < all.len() && all[k] == n;
                assert(all[k] == n);
            }
        }
    }
    out
}

/// Whether `after` is `before` with what clients see renewed, and `change` is
/// what changed in it.
pub open spec fn published(before: Manager, after: Manager, change: SnapshotChange) -> bool {
    &&& after == (Manager { unit_snapshot: after.unit_snapshot, prev_snapshot: after.prev_snapshot, ..before })
    &&& after.unit_snapshot@.len() == before.units.keys().len()
    &&& forall|i: int|
        0 <= i < after.unit_snapshot@.len() ==> shows(
            #[trigger] after.unit_snapshot@[i],
            before.records()[before.units.keys()[i]],
        )
    &&& text::views(after.prev_snapshot@) == info_names(after.unit_snapshot@)
    &&& text::views(change.added@).no_duplicates()
    &&& forall|name: Seq<char>|
        #[trigger] text::views(change.added@).contains(name) <==> info_names(after.unit_snapshot@).contains(name)
            && !text::views(before.prev_snapshot@).contains(name)
    &&& text::views(change.removed@).no_duplicates()
    &&& forall|name: Seq<char>|
        #[trigger] text::views(change.removed@).contains(name) <==> text::views(before.prev_snapshot@).contains(name)
            && !info_names(after.unit_snapshot@).contains(name)
}

impl Manager {
    /// What clients see of one unit, if it is loaded.
    pub fn unit_info(&self, name: &str) -> (r: Option<UnitInfo>)
        requires
            self.wf(),
        ensures
            match r {
                Some(info) => self.records().dom().contains(name@) && shows(info, self.records()[name@]),
                None => !self.records().dom().contains(name@),
            },
    {
        match self.units.get(name) {
            Some(record) => Some(unit_record_to_info(record)),
            None => None,
        }
    }

    /// Renew what clients see of the units. Which names are new and which are
    /// gone since the last time.
    pub fn publish_snapshot(&mut self) -> (r: SnapshotChange)
        requires
            old(self).wf(),
        ensures
            final(self).wf(),
            published(*old(self), *final(self), r),
    {
        let ghost units = self.records();
        let ghost keys = self.units.keys();
        let mut snapshot: Vec<UnitInfo> = Vec::new();
        let mut names: Vec<String> = Vec::new();
        let mut i: usize = 0;
        while i < self.units.len()
            invariant
                self.wf(),
                *self == *old(self),
                units == self.records(),
                keys == self.units.keys(),
                i <= keys.len(),
                snapshot@.len() == i,
                forall|k: int| 0 <= k < i ==> shows(#[trigger] snapshot@[k], units[keys[k]]),
                text::views(names@) == info_names(snapshot@),
            decreases keys.len() - i,
        {
            let info = unit_record_to_info(self.units.value_at(i));
            let ghost prior = text::views(names@);
            names.push(info.name.clone());
            let ghost seen = snapshot@;
            snapshot.push(info);
            proof {
                assert(text::views(names@) =~= prior.push(info.name@));
                assert(info_names(snapshot@) =~= info_names(seen).push(info.name@));
            }
            i += 1;
        }
        let added = difference(&names, &self.prev_snapshot);
        let removed = difference(&self.prev_snapshot, &names);
        self.unit_snapshot = snapshot;
        self.prev_snapshot = names;
        SnapshotChange { added, removed }
    }
}

/// A snapshot shows every unit once, in the order of the registry, each as its
/// record is; and tells which names are new in it and which are gone, each
/// once.
pub proof fn law_a_snapshot_tells_what_came_and_went(before: Manager, after: Manager, change: SnapshotChange, name: Seq<char>)
    requires
        before.wf(),
        published(before, after, change),
        forall|key: Seq<char>| #[trigger] before.records().dom().contains(key) ==> before.records()[key].loaded.id() == key,
    ensures
        after.units == before.units,
        text::views(change.added@).contains(name) <==> before.records().dom().contains(name) && !text::views(before.prev_snapshot@).contains(
            name,
        ),
        text::views(change.removed@).contains(name) <==> !before.records().dom().contains(name) && text::views(
            before.prev_snapshot@,
        ).contains(name),
        text::views(after.prev_snapshot@).contains(name) <==> before.records().dom().contains(name),
        text::views(change.added@).no_duplicates(),
        text::views(change.removed@).no_duplicates(),
{
    let keys = before.units.keys();
    let names = info_names(after.unit_snapshot@);
    before.units.lemma_keys();
    assert(before.records().dom().contains(name) <==> keys.contains(name));
    assert forall|i: int| 0 <= i < names.len() implies names[i] == #[trigger] keys[i] by {
        assert(shows(after.unit_snapshot@[i], before.records()[keys[i]]));
        assert(keys.contains(keys[i]));
        assert(before.records().dom().contains(keys[i]));
    }
    assert(names =~= keys);
}

} // verus!
